//! The invoking checks of one action, driven by hand: which resolutions a probe
//! asks for, and what it makes of the answers.

use ikigai_conformance::model::{ActionSpec, ArgSpec, Description, Entry, Verb};
use ikigai_conformance::probe::{
    read_faces, Answer, Call, Event, Evidence, Expiry, Failure, Probe, Reading, Served, Traced,
};
use ikigai_conformance::rdf::{bare_media_type, is_defined, is_rdf_face, vocabulary_namespace};
use ikigai_conformance::suite::Suite;
use ikigai_conformance::walk::Walk;
use ikigai_conformance::{Check, Checks};

fn action(verb: Verb, inputs: Vec<ArgSpec>, outputs: &[&str], requires: &[&str]) -> ActionSpec {
    ActionSpec {
        verb,
        inputs,
        outputs: outputs.iter().map(|o| o.to_string()).collect(),
        requires: requires.iter().map(|r| r.to_string()).collect(),
    }
}

fn served(media: &str, bytes: &[u8], expiry: Expiry, threaded: bool) -> Served {
    Served {
        media_type: media.to_string(),
        type_text: media.to_string(),
        bytes: bytes.to_vec(),
        expiry,
        threaded,
    }
}

fn traced(outcome: Result<Served, Failure>, hit: bool) -> Answer {
    Answer::Traced(Traced {
        outcome,
        events: vec![Event {
            root: true,
            cache_hit: hit,
        }],
    })
}

/// Drives a probe to the end, answering each call with `answer`; returns the calls.
fn drive(probe: &Probe, e: &mut Evidence, mut answer: impl FnMut(Call) -> Answer) -> Vec<Call> {
    let mut calls = Vec::new();
    while let Some(call) = probe.next(e) {
        calls.push(call);
        e.record(call, answer(call));
        assert!(calls.len() < 20, "the probe keeps asking: {calls:?}");
    }
    calls
}

fn details(probe: &Probe, e: &Evidence) -> Vec<(Check, String)> {
    let readings = read_faces(probe, e);
    let verdict = probe.judge(e, &readings, &Vec::new());
    verdict
        .findings
        .iter()
        .map(|f| (f.check, f.detail.clone()))
        .collect()
}

#[test]
fn a_cacheable_read_is_resolved_twice_and_asked_whether_it_is_cached() {
    let spec = action(Verb::Source, vec![], &["text/plain"], &[]);
    let probe = Probe::plan(&Suite::new(), "config", "urn:example:config", &spec);
    let mut e = Evidence::new();
    let calls = drive(&probe, &mut e, |call| match call {
        Call::NoGrants => Answer::Resolved(Ok(served("text/plain", b"dark", Expiry::Never, false))),
        Call::Minimal => traced(Ok(served("text/plain", b"dark", Expiry::Never, false)), false),
        Call::Again => traced(Ok(served("text/plain", b"dark", Expiry::Never, false)), true),
        Call::IsCached => Answer::Cached(true),
        other => panic!("not asked of a read: {other:?}"),
    });
    assert_eq!(calls, vec![Call::NoGrants, Call::Minimal, Call::Again, Call::IsCached]);
    let found = details(&probe, &e);
    assert_eq!(found.len(), 1, "{found:?}");
    assert_eq!(found[0].0, Check::Cacheable);
    assert!(found[0].1.starts_with("cacheable with an empty golden-thread set"));
}

#[test]
fn a_pure_threaded_or_uncacheable_read_is_clean() {
    let spec = action(Verb::Source, vec![], &["text/plain"], &[]);
    let probe = Probe::plan(&Suite::new().pure("config"), "config", "urn:x", &spec);
    let mut e = Evidence::new();
    drive(&probe, &mut e, |call| match call {
        Call::NoGrants => Answer::Resolved(Ok(served("text/plain", b"a", Expiry::Never, false))),
        Call::Minimal | Call::Again => traced(Ok(served("text/plain", b"a", Expiry::Never, false)), true),
        _ => Answer::Cached(true),
    });
    assert!(details(&probe, &e).is_empty());

    let probe = Probe::plan(&Suite::new(), "clock", "urn:x", &spec);
    let mut e = Evidence::new();
    let calls = drive(&probe, &mut e, |call| match call {
        Call::NoGrants => Answer::Resolved(Ok(served("text/plain", b"now", Expiry::Always, false))),
        _ => traced(Ok(served("text/plain", b"now", Expiry::Always, false)), false),
    });
    assert_eq!(calls, vec![Call::NoGrants, Call::Minimal], "an uncacheable result is resolved once");
    assert!(details(&probe, &e).is_empty());
}

#[test]
fn a_cacheable_read_that_recomputes_differently_is_reported_twice_over() {
    let spec = action(Verb::Source, vec![], &["text/plain"], &[]);
    let probe = Probe::plan(&Suite::new().pure("tick"), "tick", "urn:x", &spec);
    let mut e = Evidence::new();
    drive(&probe, &mut e, |call| match call {
        Call::NoGrants => Answer::Resolved(Ok(served("text/plain", b"1", Expiry::Never, true))),
        Call::Minimal => traced(Ok(served("text/plain", b"1", Expiry::Never, true)), false),
        Call::Again => traced(Ok(served("text/plain", b"2", Expiry::Never, true)), false),
        _ => Answer::Cached(false),
    });
    let found = details(&probe, &e);
    assert_eq!(found.len(), 2, "{found:?}");
    assert!(found[0].1.contains("two identical resolutions returned different bytes"));
    assert!(found[1].1.contains("the second resolution recomputed"));
}

#[test]
fn a_second_resolution_that_fails_is_reported_with_the_kernels_words() {
    let spec = action(Verb::Source, vec![], &["text/plain"], &[]);
    let probe = Probe::plan(&Suite::new().pure("flaky"), "flaky", "urn:x", &spec);
    let mut e = Evidence::new();
    let calls = drive(&probe, &mut e, |call| match call {
        Call::NoGrants => Answer::Resolved(Ok(served("text/plain", b"1", Expiry::At(5), true))),
        Call::Minimal => traced(Ok(served("text/plain", b"1", Expiry::At(5), true)), false),
        Call::Again => traced(Err(Failure::Other("endpoint error: boom".into())), false),
        _ => Answer::Cached(false),
    });
    assert!(!calls.contains(&Call::IsCached), "{calls:?}");
    let found = details(&probe, &e);
    assert_eq!(found.len(), 2, "{found:?}");
    assert_eq!(
        found[0],
        (
            Check::Cacheable,
            "cacheable, but the second identical resolution failed: endpoint error: boom"
                .to_string()
        )
    );
    // OUTPUTS reads the latest resolution, which is the failed one.
    assert_eq!(found[1].0, Check::Outputs);
    assert!(found[1].1.starts_with("did not resolve with the minimal inputs its ArgSpecs allow (endpoint error: boom)"));
}

#[test]
fn live_names_the_expiry_the_kernel_returned() {
    let spec = action(Verb::Source, vec![], &["text/plain"], &[]);
    for (expiry, words) in [
        (Expiry::Never, "(`Expiry::Never` — permanently)"),
        (Expiry::At(5), "(`At(Time(5))`)"),
    ] {
        let probe = Probe::plan(&Suite::new().live("config"), "config", "urn:x", &spec);
        let mut e = Evidence::new();
        let calls = drive(&probe, &mut e, |call| match call {
            Call::NoGrants => Answer::Resolved(Ok(served("text/plain", b"a", expiry, false))),
            _ => traced(Ok(served("text/plain", b"a", expiry, false)), false),
        });
        assert_eq!(calls, vec![Call::NoGrants, Call::Minimal], "live is never resolved twice");
        let found = details(&probe, &e);
        assert_eq!(found.len(), 1, "{found:?}");
        assert!(found[0].1.contains(words), "{found:?}");
    }
}

#[test]
fn contradictory_declarations_come_first() {
    let spec = action(Verb::Source, vec![], &["text/plain"], &[]);
    let suite = Suite::new().live("clock").cacheable("clock");
    let probe = Probe::plan(&suite, "clock", "urn:x", &spec);
    let mut e = Evidence::new();
    drive(&probe, &mut e, |call| match call {
        Call::NoGrants => Answer::Resolved(Ok(served("text/plain", b"a", Expiry::Always, false))),
        _ => traced(Ok(served("text/plain", b"a", Expiry::Always, false)), false),
    });
    let found = details(&probe, &e);
    assert_eq!(found.len(), 2, "{found:?}");
    assert!(found[0].1.starts_with("declared both cacheable (`Suite::cacheable`) and live"));
    assert!(found[1].1.starts_with("declared cacheable (`Suite::cacheable`) but the kernel returned it uncacheable"));
}

#[test]
fn a_sink_with_content_is_fired_once_and_outputs_reads_that_firing() {
    let content = ArgSpec::new("content").class("http://www.w3.org/2001/XMLSchema#string");
    let spec = action(Verb::Sink, vec![content], &["text/plain"], &["urn:cap:example:write"]);
    let probe = Probe::plan(&Suite::new(), "notes-put", "urn:example:notes-put", &spec);
    assert_eq!(
        probe.arguments(Call::Fire),
        vec![("content".to_string(), "x".to_string())]
    );
    let mut e = Evidence::new();
    let calls = drive(&probe, &mut e, |call| match call {
        Call::NoGrants => Answer::Resolved(Err(Failure::Denied("no grant".into()))),
        Call::Fire => Answer::Resolved(Ok(served("application/json", b"{}", Expiry::Always, false))),
        other => panic!("a sink is not resolved for {other:?}"),
    });
    assert_eq!(calls, vec![Call::NoGrants, Call::Fire]);
    let found = details(&probe, &e);
    assert_eq!(
        found,
        vec![(
            Check::Outputs,
            "served `application/json` with its minimal inputs but declares only `text/plain`: a face the manifold does not announce and the RDF checks never saw — declare it (`.output(\"application/json\")`) or serve what is declared".to_string()
        )]
    );
}

#[test]
fn a_delete_without_content_is_never_fired_and_listed_as_unprobed() {
    let spec = action(Verb::Delete, vec![], &["text/plain"], &["urn:cap:example:write"]);
    let probe = Probe::plan(&Suite::new(), "notes-delete", "urn:x", &spec);
    let mut e = Evidence::new();
    let calls = drive(&probe, &mut e, |_| Answer::Resolved(Err(Failure::Denied("no".into()))));
    assert_eq!(calls, vec![Call::NoGrants]);
    let readings = read_faces(&probe, &e);
    let verdict = probe.judge(&e, &readings, &Vec::new());
    assert!(verdict.findings.is_empty());
    assert_eq!(verdict.unprobed.len(), 1);
    assert_eq!(verdict.unprobed[0].check, Check::Outputs);
    assert!(verdict.unprobed[0].reason.starts_with("never fired under root"));
    assert!(verdict.served.is_none());
}

#[test]
fn enforced_and_authority_never_both_speak_of_one_resolution() {
    let body = ArgSpec::new("content").class("http://www.w3.org/2001/XMLSchema#string");
    let open = action(Verb::Sink, vec![body.clone()], &["text/plain"], &[]);
    let probe = Probe::plan(&Suite::new(), "notes-write", "urn:x", &open);
    let mut e = Evidence::new();
    drive(&probe, &mut e, |_| Answer::Resolved(Ok(served("text/plain", b"ok", Expiry::Always, false))));
    let checks: Vec<Check> = details(&probe, &e).into_iter().map(|(c, _)| c).collect();
    assert_eq!(checks, vec![Check::Authority]);

    let gated = action(Verb::Sink, vec![body], &["text/plain"], &["urn:cap:w"]);
    let probe = Probe::plan(&Suite::new(), "notes-write", "urn:x", &gated);
    let mut e = Evidence::new();
    drive(&probe, &mut e, |_| Answer::Resolved(Ok(served("text/plain", b"ok", Expiry::Always, false))));
    let found = details(&probe, &e);
    assert_eq!(found.len(), 1, "{found:?}");
    assert_eq!(found[0].0, Check::Enforced);
    assert_eq!(
        found[0].1,
        "declares requires `urn:cap:w` but resolved under a capability holding no grants: declared is not enforced"
    );
}

#[test]
fn an_undeclared_refusal_is_an_over_offer() {
    let spec = action(Verb::Source, vec![], &["text/plain"], &[]);
    let probe = Probe::plan(&Suite::new().checks(Checks::enforced()), "stealth", "urn:x", &spec);
    let mut e = Evidence::new();
    let calls = drive(&probe, &mut e, |_| Answer::Resolved(Err(Failure::Denied("urn:cap:r".into()))));
    assert_eq!(calls, vec![Call::NoGrants]);
    assert_eq!(
        details(&probe, &e),
        vec![(
            Check::Enforced,
            "declares no capability but refused with `Denied` under no grants (urn:cap:r): an enforced scope the manifold does not declare — it over-offers".to_string()
        )]
    );
}

#[test]
fn unselected_checks_ask_nothing_and_find_nothing() {
    let spec = action(Verb::Sink, vec![], &["text/turtle"], &[]);
    let probe = Probe::plan(&Suite::new().checks(Checks::none()), "x", "urn:x", &spec);
    let e = Evidence::new();
    assert_eq!(probe.next(&e), None);
    let verdict = probe.judge(&e, &read_faces(&probe, &e), &Vec::new());
    assert!(verdict.findings.is_empty());
    assert!(verdict.unprobed.is_empty());
    assert!(!verdict.cacheable_ran);
}

#[test]
fn a_failed_minimal_resolution_is_reported_once_under_the_first_check_that_needed_it() {
    let spec = action(Verb::Source, vec![], &["text/turtle"], &[]);
    let probe = Probe::plan(&Suite::new().checks(Checks::all() - Checks::enforced()), "json-keys", "urn:x", &spec);
    let mut e = Evidence::new();
    let calls = drive(&probe, &mut e, |_| {
        traced(Err(Failure::Other("invalid argument `content`: not a JSON object".into())), false)
    });
    assert_eq!(calls, vec![Call::Minimal], "one minimal resolution serves every check");
    let readings = read_faces(&probe, &e);
    let verdict = probe.judge(&e, &readings, &Vec::new());
    assert_eq!(verdict.findings.len(), 1);
    assert_eq!(verdict.findings[0].check, Check::SkolemRdf);
    assert_eq!(
        verdict.findings[0].detail,
        "did not resolve with the minimal inputs its ArgSpecs allow (invalid argument `content`: not a JSON object); supply a `Fixture::new(\"json-keys\", Verb::Source)` with inputs that work, or opt out with a reason"
    );
    assert_eq!(verdict.unprobed.len(), 1);
    assert_eq!(verdict.unprobed[0].reason, "the minimal resolution failed, so nothing was served");
    assert!(verdict.unresolved);
}

#[test]
fn blank_nodes_are_counted_and_the_first_three_named() {
    let spec = action(Verb::Source, vec![], &["text/turtle"], &[]);
    let probe = Probe::plan(&Suite::new().checks(Checks::skolem_rdf()), "g", "urn:x", &spec);
    let mut e = Evidence::new();
    e.record(
        Call::Minimal,
        traced(Ok(served("text/turtle", b"_", Expiry::Always, false)), false),
    );
    assert_eq!(probe.next(&e), None);
    let readings = vec![Some(Ok(Reading {
        triples: 4,
        blanks: vec!["_:a".into(), "_:b".into(), "_:c".into(), "_:d".into()],
        terms: vec![],
    }))];
    let verdict = probe.judge(&e, &readings, &Vec::new());
    assert_eq!(verdict.findings.len(), 1);
    assert_eq!(
        verdict.findings[0].detail,
        "the `text/turtle` face has 4 blank node(s) (_:a, _:b, _:c, …): skolemize — mint a stable IRI per node (`urn:ikigai:endpoint:{id}:…`, `urn:event:{uid}`), never a counter"
    );
    assert_eq!(verdict.probed.len(), 1);
    assert_eq!(verdict.probed[0].triples, 4);
    assert!(verdict.faces_probed);
}

#[test]
fn a_registered_namespace_covers_its_terms_and_is_noted_as_used() {
    let spec = action(Verb::Source, vec![], &["text/turtle"], &[]);
    let suite = Suite::new()
        .checks(Checks::vocabulary())
        .namespace("urn:example:ns#")
        .namespace("https://example.com/unused#");
    let probe = Probe::plan(&suite, "g", "urn:x", &spec);
    let mut e = Evidence::new();
    e.record(
        Call::Minimal,
        traced(Ok(served("text/turtle", b"_", Expiry::Always, false)), false),
    );
    let ns = vocabulary_namespace();
    let readings = vec![Some(Ok(Reading {
        triples: 3,
        blanks: vec![],
        terms: vec![
            "http://purl.org/dc/terms/title".into(),
            format!("{ns}madeUp"),
            "urn:example:ns#size".into(),
        ],
    }))];
    let verdict = probe.judge(&e, &readings, &vec![format!("{ns}Endpoint")]);
    assert_eq!(verdict.findings.len(), 1);
    assert!(verdict.findings[0].detail.contains("madeUp"));
    assert_eq!(verdict.namespaces_used, vec!["urn:example:ns#".to_string()]);
}

#[test]
fn every_answer_brings_the_probe_closer_to_done() {
    let spec = action(Verb::Source, vec![], &["text/plain", "text/turtle", "application/ld+json"], &[]);
    let probe = Probe::plan(&Suite::new(), "graph", "urn:x", &spec);
    assert_eq!(probe.faces, vec!["text/turtle".to_string(), "application/ld+json".into()]);
    assert_eq!(
        probe.arguments(Call::Face(1)),
        vec![("as".to_string(), "application/ld+json".to_string())]
    );
    let mut e = Evidence::new();
    let calls = drive(&probe, &mut e, |call| match call {
        Call::NoGrants | Call::Face(_) => {
            Answer::Resolved(Ok(served("text/turtle", b"_", Expiry::Always, false)))
        }
        _ => traced(Ok(served("text/plain", b"_", Expiry::Always, false)), false),
    });
    assert_eq!(
        calls,
        vec![Call::NoGrants, Call::Face(0), Call::Face(1), Call::Minimal]
    );
}

#[test]
fn a_waiver_silences_one_check_on_one_endpoint() {
    let suite = Suite::new().opt_out_check("a", Check::Names, "an IRI by contract");
    assert!(!suite.runs("a", Check::Names));
    assert!(suite.runs("b", Check::Names));
    assert!(suite.runs("a", Check::Vocabulary));
    assert!(Suite::new().runs("a", Check::Names));
}

#[test]
fn media_type_parameters_never_change_the_face() {
    assert_eq!(bare_media_type("Text/Turtle; charset=utf-8"), "text/turtle");
    assert_eq!(bare_media_type(" text/plain "), "text/plain");
    assert!(is_rdf_face("text/turtle;charset=utf-8"));
    assert!(!is_rdf_face("text/plain;format=turtle"));
}

#[test]
fn registering_the_vocabulary_namespace_defines_nothing_under_it() {
    let ns = vocabulary_namespace();
    assert!(!is_defined(&format!("{ns}madeUp"), &[ns.to_string()]));
    assert!(is_defined("urn:my:ns#x", &["urn:my:ns#".to_string()]));
}

fn untyped_description() -> Description {
    let spec = action(Verb::Source, vec![ArgSpec::new("in")], &["text/plain"], &[]);
    Description {
        id: "untyped".into(),
        verbs: vec![Verb::Source],
        requires: vec![],
        inputs: vec![ArgSpec::new("in")],
        actions: vec![],
        action_specs: vec![spec],
    }
}

#[test]
fn an_opt_out_leaves_the_description_checks_alone() {
    let entry = Entry {
        pattern: "urn:example:untyped".into(),
        endpoint: "untyped".into(),
    };
    let mut plain = Walk::new(Suite::new());
    let probes = plain.enter(&entry, Some(&untyped_description()));
    assert_eq!(probes.len(), 1);
    let mut opted = Walk::new(Suite::new().opt_out("untyped", None, "calls a paid API"));
    let none = opted.enter(&entry, Some(&untyped_description()));
    assert!(none.is_empty());
    let a: Vec<String> = plain.report.findings.iter().map(|f| f.text()).collect();
    let b: Vec<String> = opted.report.findings.iter().map(|f| f.text()).collect();
    assert_eq!(a, b);
    assert_eq!(
        a,
        vec!["untyped  ARGSPECS  source: input `in` has no class: declare an rdfs:Class IRI for an entity or an XSD datatype IRI for a scalar (`.class(\"http://www.w3.org/2001/XMLSchema#string\")`)".to_string()]
    );
    assert_eq!(plain.report.actions, 1);
    assert_eq!(opted.report.actions, 1);
}

#[test]
fn a_second_entry_for_the_same_id_is_probed_but_not_rechecked() {
    let mut walk = Walk::new(Suite::new());
    let first = Entry { pattern: "urn:example:a".into(), endpoint: "untyped".into() };
    let second = Entry { pattern: "urn:example:b".into(), endpoint: "untyped".into() };
    assert_eq!(walk.enter(&first, Some(&untyped_description())).len(), 1);
    assert_eq!(walk.enter(&second, Some(&untyped_description())).len(), 1);
    assert_eq!(walk.report.endpoints, 1);
    assert_eq!(walk.report.actions, 2);
    assert_eq!(walk.report.findings.len(), 1);
    let report = walk.finish();
    assert_eq!(report.walked, vec!["untyped".to_string()]);
}

#[test]
fn an_entry_that_describes_nothing_is_an_argspecs_finding() {
    let mut walk = Walk::new(Suite::new());
    let entry = Entry { pattern: "urn:example:ghost".into(), endpoint: "ghost".into() };
    assert!(walk.enter(&entry, None).is_empty());
    let report = walk.finish();
    assert_eq!(report.findings.len(), 1);
    assert_eq!(
        report.findings[0].text(),
        "ghost  ARGSPECS  bound at `urn:example:ghost` but describes nothing: a Meta resolution of the pattern reaches no description"
    );
}

#[test]
fn a_root_space_that_cannot_be_listed_is_one_finding() {
    let report = Walk::new(Suite::new().pure("x")).unenumerable();
    assert_eq!(report.findings.len(), 1);
    assert_eq!(report.findings[0].endpoint, "(kernel)");
    assert!(report.findings[0].detail.starts_with("the root space is not enumerable"));
    assert_eq!(report.declared.pure, vec!["x".to_string()]);
}

#[test]
fn the_kernel_namespace_is_visited_only_on_request() {
    let walk = Walk::new(Suite::new());
    assert!(!walk.visits("urn:kernel:actions"));
    assert!(walk.visits("urn:example:upper"));
    assert!(Walk::new(Suite::new().include_kernel_ops()).visits("urn:kernel:actions"));
}

#[test]
fn a_fixture_for_an_id_the_walk_never_reached_is_reported_with_its_line() {
    let suite = Suite::new().fixture(
        ikigai_conformance::fixture::Fixture::new("uppercase", Verb::Source).arg("in", "x"),
    );
    let report = Walk::new(suite).finish();
    assert_eq!(report.findings.len(), 1);
    assert_eq!(
        report.findings[0].text(),
        "uppercase  DECLARATIONS  fixture `uppercase source in=\"x\"` was never used: the walk reached no endpoint with that id (the first field is the `Description::id`, not the bound IRI)"
    );
}
