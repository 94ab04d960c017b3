//! The pieces of the suite on their own: report lines, sample values, template
//! variables, and the RDF reading the graph checks rely on.

use ikigai_conformance::fixture::Fixture;
use ikigai_conformance::model::{ArgSpec, Verb};
use ikigai_conformance::rdf::{
    blank_nodes, defined_terms, is_defined, is_rdf_face, parse, vocabulary_namespace,
    terms, vocabulary_terms, Node, Triple, RDF_FACES,
};
use ikigai_conformance::report::{Declarations, Finding, OptedOut, Report, Unprobed};
use ikigai_conformance::suite::{sample_value, PLACEHOLDER, PLACEHOLDER_IRI, XSD};
use ikigai_conformance::template::template_vars;
use ikigai_conformance::{Check, Checks};
use oxrdfio::RdfFormat;

fn finding(endpoint: &str, verb: Option<Verb>, check: Check, detail: &str) -> Finding {
    Finding {
        endpoint: endpoint.to_string(),
        verb,
        check,
        detail: detail.to_string(),
    }
}

#[test]
fn a_finding_line_leads_with_the_endpoint_id() {
    let f = finding("cal", Some(Verb::Sink), Check::Pipeline, "no `content` input");
    assert_eq!(f.text(), "cal  PIPELINE  sink: no `content` input");
    let f = finding("cal", None, Check::Names, "not kebab-case");
    assert_eq!(f.text(), "cal  NAMES  not kebab-case");
}

#[test]
fn the_report_prints_skipped_checks_and_opt_outs() {
    let report = Report {
        findings: vec![],
        endpoints: 2,
        actions: 3,
        checks: Checks::all() - Checks::rdf(),
        declared: Box::new(Declarations {
            opted_out: vec![OptedOut {
                endpoint: "email-send".into(),
                verb: Some(Verb::Sink),
                reason: "sends real mail".into(),
            }],
            opted_out_checks: vec![],
            pure: vec!["to-upper".into()],
            cacheable: vec!["to-upper".into()],
            live: vec![],
            namespaces: vec!["urn:example:ns#".into()],
            fixtures: vec![Fixture::new("file", Verb::Source)
                .binding("path", "README.md")
                .arg(
                    "content",
                    "a body that is long enough to be cut short in the report",
                )],
        }),
        unprobed: vec![Unprobed {
            endpoint: "notes-delete".into(),
            verb: Verb::Delete,
            check: Check::Outputs,
            reason: "never fired under root".into(),
        }],
        probed: vec![],
        walked: vec![],
    };
    assert!(std::mem::size_of::<Report>() <= 128);
    let text = report.to_text();
    assert!(text.contains("0 finding(s) across 2 endpoint(s), 3 action(s)"));
    assert!(text.contains("skipped: SKOLEM-RDF VOCABULARY"));
    assert!(text.contains("opted out: email-send sink: sends real mail"));
    assert!(text.contains("declared pure: to-upper"));
    assert!(
        text.contains("fixture: file source path=\"README.md\" content=\"a body that is long"),
        "{text}"
    );
    assert!(
        text.contains("chars)"),
        "a long value is cut, and says so:\n{text}"
    );
    assert!(
        text.contains("unprobed: notes-delete delete OUTPUTS: never fired under root"),
        "{text}"
    );
    assert!(report.is_clean());
    assert!(report.into_result().is_ok());
}

#[test]
fn sample_values_follow_the_declared_class() {
    let s = |class: &str| sample_value(&ArgSpec::new("a").class(&format!("{XSD}{class}")));
    assert_eq!(s("integer"), "1");
    assert_eq!(s("boolean"), "true");
    assert_eq!(s("dateTime"), "2026-01-01T00:00:00Z");
    assert_eq!(s("anyURI"), PLACEHOLDER_IRI);
    assert_eq!(s("string"), PLACEHOLDER);
    assert_eq!(
        sample_value(&ArgSpec::new("who").class("https://schema.org/Person")),
        PLACEHOLDER_IRI
    );
    assert_eq!(sample_value(&ArgSpec::new("raw")), PLACEHOLDER);
    assert_eq!(
        sample_value(&ArgSpec::new("mode").one_of(vec!["added".into(), "removed".into()])),
        "added"
    );
    assert_eq!(
        sample_value(
            &ArgSpec::new("as")
                .one_of(vec!["a".into(), "b".into()])
                .default_value("b")
        ),
        "b"
    );
}

#[test]
fn template_vars_are_read_from_patterns_only() {
    assert_eq!(template_vars("urn:example:echo"), None);
    assert_eq!(
        template_vars("urn:file:{path}").unwrap(),
        vec!["path".to_string()]
    );
}

#[test]
fn the_vocabulary_defines_the_terms_the_catalog_emits() {
    let terms = vocabulary_terms();
    let ns = vocabulary_namespace();
    for t in ["Endpoint", "Action", "id", "input", "requires", "output"] {
        assert!(terms.contains(&format!("{ns}{t}")), "ik:{t} missing");
    }
    assert!(!terms.contains(&format!("{ns}invented")));
}

#[test]
fn an_undefined_ik_term_is_not_defined_even_though_it_is_under_ik() {
    let ns = vocabulary_namespace();
    assert!(is_defined(&format!("{ns}Endpoint"), &[]));
    assert!(!is_defined(&format!("{ns}invented"), &[]));
    assert!(is_defined("urn:my:ns#x", &["urn:my:ns#".to_string()]));
    assert!(!is_defined("urn:my:ns#x", &[]));
}

#[test]
fn every_rdf_face_has_a_parser() {
    for face in RDF_FACES {
        assert!(RdfFormat::from_media_type(face).is_some(), "{face}");
        assert!(is_rdf_face(&format!("{face};charset=utf-8")));
    }
    assert!(!is_rdf_face("text/plain;charset=utf-8"));
}

#[test]
fn json_ld_and_ntriples_parse_too() {
    let nt = parse("application/n-triples", b"<urn:a> <urn:p> <urn:b> .\n").unwrap();
    assert_eq!(nt.len(), 1);
    let jsonld = parse(
        "application/ld+json",
        br#"{"@id": "urn:a", "urn:p": {"@id": "urn:b"}}"#,
    )
    .unwrap();
    assert_eq!(jsonld.len(), 1);
    let blank = parse("application/ld+json", br#"{"urn:p": "x"}"#).unwrap();
    assert_eq!(blank_nodes(&blank).len(), 1, "an @id-less node is blank");
}

fn triple(subject: Node) -> Triple {
    Triple {
        subject,
        predicate: "http://www.w3.org/2000/01/rdf-schema#label".to_string(),
        object: Node::Literal("\"x\"".to_string()),
    }
}

#[test]
fn defined_terms_keeps_subject_iris_under_the_namespace_once_and_sorted() {
    let ns = vocabulary_namespace();
    let triples = vec![
        triple(Node::Iri(format!("{ns}Zeta"))),
        triple(Node::Iri("urn:other:Alpha".to_string())),
        triple(Node::Blank("_:b0".to_string())),
        triple(Node::Iri(format!("{ns}Alpha"))),
        triple(Node::Iri(format!("{ns}Zeta"))),
    ];
    assert_eq!(
        defined_terms(&triples),
        vec![format!("{ns}Alpha"), format!("{ns}Zeta")]
    );
    assert!(defined_terms(&Vec::new()).is_empty());
}

#[test]
fn a_parsed_graph_keeps_each_quad_with_literals_in_ntriples_form() {
    let nq = parse(
        "application/n-quads; charset=utf-8",
        b"_:x <urn:p> \"v\"@en <urn:g> .\n<urn:a> <urn:q> _:x .\n",
    )
    .unwrap();
    assert_eq!(nq.len(), 2);
    assert!(matches!(&nq[0].subject, Node::Blank(b) if b.starts_with("_:")));
    assert_eq!(nq[0].predicate, "urn:p");
    assert_eq!(nq[0].object, Node::Literal("\"v\"@en".to_string()));
    assert_eq!(nq[1].subject, Node::Iri("urn:a".to_string()));
    assert_eq!(blank_nodes(&nq).len(), 1, "one blank node, named twice");
}

#[test]
fn parse_errors_name_the_bare_media_type() {
    assert_eq!(
        parse("image/png", b"x").unwrap_err(),
        "`image/png` is not an RDF media type this crate can parse"
    );
    let err = parse("Text/Turtle; charset=utf-8", b"<urn:a> <urn:p> .").unwrap_err();
    assert!(err.starts_with("does not parse as text/turtle: "), "{err}");
}

#[test]
fn only_the_invented_ik_term_of_a_face_is_undefined() {
    let face = b"@prefix ik: <https://ikigai-rs.dev/ns#> .\n<urn:example:review> a ik:Endpoint ; ik:quote \"a quoted line\" .";
    let undefined: Vec<String> = terms(&parse("text/turtle", face).unwrap())
        .into_iter()
        .filter(|t| !is_defined(t, &[]))
        .collect();
    assert_eq!(undefined, vec!["https://ikigai-rs.dev/ns#quote".to_string()]);
    let ns = vocabulary_namespace();
    assert!(vocabulary_terms().contains(&format!("{ns}Endpoint")));
}

#[test]
fn parse_reads_the_bare_media_type() {
    let bytes = b"<urn:a> <urn:p> \"x\" .\n<urn:a> <urn:q> <urn:b> .\n";
    let full = parse(" Application/N-Triples ; charset=utf-8", bytes).unwrap();
    let bare = parse("application/n-triples", bytes).unwrap();
    assert_eq!(full, bare);
    assert_eq!(
        parse("image/png; q=1", b"").unwrap_err(),
        parse("image/png", b"").unwrap_err()
    );
}

#[test]
fn each_blank_node_keeps_one_label_and_two_stay_two() {
    let ttl = b"<urn:a> <urn:p> [ <urn:q> 1 ] .\n<urn:a> <urn:r> [ <urn:q> 2 ] .\n";
    let triples = parse("text/turtle", ttl).unwrap();
    assert_eq!(triples.len(), 4);
    assert_eq!(blank_nodes(&triples).len(), 2);
}
