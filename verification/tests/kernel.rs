//! The suite walked over real kernels: one fixture endpoint per check that
//! violates its rule on purpose, a test per fixture asserting the violation is
//! caught, one endpoint that violates nothing, and `ikigai-core`'s own builtins.
//!
//! The host side of a walk (enumerating, resolving, issuing what each probe asks
//! for) is written out below, as a host would write it.

use std::sync::atomic::{AtomicUsize, Ordering};
use std::sync::{Arc, Mutex};

use ikigai_conformance::fixture::Fixture;
use ikigai_conformance::model as lib;
use ikigai_conformance::probe::{
    read_faces, Answer, Call, Event, Evidence, Expiry, Failure, Probe, Served, Traced,
};
use ikigai_conformance::report::{Finding, Report};
use ikigai_conformance::suite::Suite;
use ikigai_conformance::walk::Walk;
use ikigai_conformance::{Check, Checks};
use ikigai_core::builtins;
use ikigai_core::{
    ActionSpec, ArgSpec, Description, EndpointSpace, Error, Exact, FnEndpoint, Invocation, Kernel,
    ReprType, Representation, UriTemplate, Verb,
};

// ----- the host side --------------------------------------------------------------

fn verb_of(v: Verb) -> lib::Verb {
    match v {
        Verb::Source => lib::Verb::Source,
        Verb::Sink => lib::Verb::Sink,
        Verb::Exists => lib::Verb::Exists,
        Verb::Delete => lib::Verb::Delete,
        Verb::Meta => lib::Verb::Meta,
    }
}

fn core_verb(v: lib::Verb) -> Verb {
    match v {
        lib::Verb::Source => Verb::Source,
        lib::Verb::Sink => Verb::Sink,
        lib::Verb::Exists => Verb::Exists,
        lib::Verb::Delete => Verb::Delete,
        lib::Verb::Meta => Verb::Meta,
    }
}

fn arg_spec_of(a: &ArgSpec) -> lib::ArgSpec {
    lib::ArgSpec {
        name: a.name.clone(),
        required: a.required,
        source: match a.source {
            ikigai_core::InputSource::Argument => lib::InputSource::Argument,
            ikigai_core::InputSource::Binding => lib::InputSource::Binding,
        },
        class: a.class.clone(),
        default: a.default.clone(),
        one_of: a.one_of.clone(),
    }
}

fn action_spec_of(a: &ActionSpec) -> lib::ActionSpec {
    lib::ActionSpec {
        verb: verb_of(a.verb),
        inputs: a.inputs.iter().map(arg_spec_of).collect(),
        outputs: a.outputs.clone(),
        requires: a.requires.clone(),
    }
}

fn description_of(d: &Description) -> lib::Description {
    lib::Description {
        id: d.id.clone(),
        verbs: d.verbs.iter().map(|v| verb_of(*v)).collect(),
        requires: d.requires.clone(),
        inputs: d.inputs.iter().map(arg_spec_of).collect(),
        actions: d.actions.iter().map(action_spec_of).collect(),
        action_specs: d.action_specs().iter().map(action_spec_of).collect(),
    }
}

fn outcome_of(r: ikigai_core::Result<Representation>) -> Result<Served, Failure> {
    match r {
        Ok(repr) => Ok(Served {
            media_type: repr.repr_type.media_type.clone(),
            type_text: repr.repr_type.to_string(),
            bytes: repr.bytes.clone(),
            expiry: match repr.expiry {
                ikigai_core::Expiry::Always => Expiry::Always,
                ikigai_core::Expiry::At(t) => Expiry::At(t.0),
                ikigai_core::Expiry::Never => Expiry::Never,
            },
            threaded: !repr.threads().is_empty(),
        }),
        Err(Error::Denied(m)) => Err(Failure::Denied(m)),
        Err(Error::MissingArgument(n)) => Err(Failure::MissingArgument(n)),
        Err(other) => Err(Failure::Other(other.to_string())),
    }
}

#[derive(Default)]
struct Collector(Mutex<Vec<ikigai_core::TraceEvent>>);

impl ikigai_core::Tracer for Collector {
    fn record(&self, event: ikigai_core::TraceEvent) {
        self.0.lock().expect("collector lock").push(event);
    }
}

async fn perform(kernel: &Kernel, probe: &Probe, call: Call) -> Answer {
    let target = ikigai_core::Iri::parse(&probe.target).expect("a probe's target is an IRI");
    let mut request = ikigai_core::Request::new(core_verb(probe.verb), target);
    for (name, value) in probe.arguments(call) {
        request = request.with_arg(name, ikigai_core::ArgRef::Inline(value.into_bytes()));
    }
    let root = ikigai_core::Capability::root();
    match call {
        Call::NoGrants => {
            let none = ikigai_core::Capability::scoped(Vec::<String>::new());
            Answer::Resolved(outcome_of(kernel.issue(request, &none).await))
        }
        Call::Face(_) | Call::Fire => Answer::Resolved(outcome_of(kernel.issue(request, &root).await)),
        Call::Minimal | Call::Again => {
            let collector = Arc::new(Collector::default());
            let tracer: Arc<dyn ikigai_core::Tracer> = collector.clone();
            let result = kernel.issue_traced(request, &root, tracer).await;
            let events = std::mem::take(&mut *collector.0.lock().expect("collector lock"))
                .into_iter()
                .map(|e| Event {
                    root: e.parent.is_none(),
                    cache_hit: e.cache_hit,
                })
                .collect();
            Answer::Traced(Traced {
                outcome: outcome_of(result),
                events,
            })
        }
        Call::IsCached => Answer::Cached(kernel.is_cached(&request, &root)),
    }
}

async fn run(suite: &Suite, kernel: &Kernel) -> Report {
    let mut walk = Walk::new(suite.clone());
    let Some(entries) = kernel.entries() else {
        return walk.unenumerable();
    };
    for entry in entries {
        if !walk.visits(&entry.pattern) {
            continue;
        }
        let description = kernel
            .describe_pattern(&entry.pattern)
            .map(|d| description_of(&d));
        let bound = lib::Entry {
            pattern: entry.pattern.clone(),
            endpoint: entry.endpoint.clone(),
        };
        for probe in walk.enter(&bound, description.as_ref()) {
            let mut evidence = Evidence::new();
            while let Some(call) = probe.next(&evidence) {
                let answer = perform(kernel, &probe, call).await;
                evidence.record(call, answer);
            }
            let readings = read_faces(&probe, &evidence);
            walk.conclude(&probe, &evidence, &readings);
        }
    }
    walk.finish()
}

trait RunBlocking {
    fn run_blocking(&self, kernel: &Kernel) -> Report;
}

impl RunBlocking for Suite {
    fn run_blocking(&self, kernel: &Kernel) -> Report {
        futures::executor::block_on(run(self, kernel))
    }
}

fn check(kernel: &Kernel) -> Result<Report, Report> {
    Suite::new().run_blocking(kernel).into_result()
}

// ----- fixtures ---------------------------------------------------------------------

const XSD_STRING: &str = "http://www.w3.org/2001/XMLSchema#string";
const XSD_INTEGER: &str = "http://www.w3.org/2001/XMLSchema#integer";
const TURTLE: &str = "text/turtle";

fn text(s: impl Into<Vec<u8>>) -> Representation {
    Representation::new(ReprType::new("text/plain"), s)
}

fn turtle(s: &str) -> Representation {
    Representation::new(ReprType::new(TURTLE), s.as_bytes().to_vec())
}

fn kernel(space: EndpointSpace) -> Kernel {
    Kernel::new(Arc::new(space))
}

fn report_of(space: EndpointSpace) -> Report {
    match check(&kernel(space)) {
        Ok(r) | Err(r) => r,
    }
}

fn of<'a>(report: &'a Report, check: Check) -> Vec<&'a Finding> {
    report.of(check)
}

fn against<'a>(report: &'a Report, id: &str) -> Vec<&'a Finding> {
    report.against(id)
}

fn only(report: &Report, check: Check) -> Vec<String> {
    report.of(check).iter().map(|f| f.detail.clone()).collect()
}

fn assert_caught(report: &Report, check: Check, needle: &str) {
    assert!(
        report.of(check).iter().any(|f| f.detail.contains(needle)),
        "expected a {check:?} finding containing {needle:?}; got:\n{}",
        report.to_text()
    );
}

/// A well-behaved endpoint: kebab id, typed input, single verb, cacheable, pure.
fn conforming() -> FnEndpoint {
    FnEndpoint::new("upper", |inv: &Invocation<'_>| {
        Ok(text(inv.inline_str("in")?.to_uppercase()).cacheable())
    })
    .with_description(
        Description::new("upper")
            .title("Upper-case")
            .verb(Verb::Source)
            .verb(Verb::Meta)
            .input(ArgSpec::new("in").class(XSD_STRING))
            .output("text/plain"),
    )
}

#[test]
fn a_conforming_endpoint_is_clean() {
    let space = EndpointSpace::new().bind(Exact::new("urn:example:upper"), conforming());
    let report = Suite::new().pure("upper").run_blocking(&kernel(space));
    assert!(report.is_clean(), "{}", report.to_text());
    assert_eq!(report.endpoints, 1);
    assert_eq!(report.actions, 1);
    assert!(report.to_text().contains("declared pure: upper"));
}

// ----- ARGSPECS ---------------------------------------------------------------

#[test]
fn argspecs_catches_untyped_inputs_no_actions_and_bad_defaults() {
    let untyped = FnEndpoint::new("untyped", |_inv: &Invocation<'_>| Ok(text("x")))
        .with_description(
            Description::new("untyped")
                .verb(Verb::Source)
                .input(ArgSpec::new("in"))
                .input(
                    ArgSpec::new("mode")
                        .class(XSD_STRING)
                        .one_of(["a", "b"])
                        .default_value("c"),
                )
                .input(ArgSpec::new("in").class(XSD_STRING))
                .output("text/plain"),
        );
    let verbless = FnEndpoint::new("verbless", |_inv: &Invocation<'_>| Ok(text("x")))
        .with_description(Description::new("verbless").verb(Verb::Meta));
    let space = EndpointSpace::new()
        .bind(Exact::new("urn:example:untyped"), untyped)
        .bind(Exact::new("urn:example:verbless"), verbless);
    let report = report_of(space);
    assert_caught(&report, Check::ArgSpecs, "input `in` has no class");
    assert_caught(
        &report,
        Check::ArgSpecs,
        "defaults to `c`, which is not one of",
    );
    assert_caught(&report, Check::ArgSpecs, "input `in` is declared twice");
    assert_caught(&report, Check::ArgSpecs, "declares no action");
    assert!(against(&report, "verbless")
        .iter()
        .all(|f| f.check == Check::ArgSpecs));
}

#[test]
fn argspecs_catches_a_template_variable_that_is_not_a_binding_input() {
    let file = FnEndpoint::new("file", |inv: &Invocation<'_>| {
        Ok(text(inv.bindings.get("path").unwrap_or("").to_string()))
    })
    .with_description(
        Description::new("file")
            .verb(Verb::Source)
            .input(ArgSpec::new("path").class(XSD_STRING))
            .output("text/plain"),
    );
    let space = EndpointSpace::new().bind(UriTemplate::parse("urn:file:{path}").unwrap(), file);
    let report = report_of(space);
    assert_caught(
        &report,
        Check::ArgSpecs,
        "template variable `path` of `urn:file:{path}`",
    );
}

// ----- REQUIRES-VERB ----------------------------------------------------------


// ----- ENFORCED ---------------------------------------------------------------

fn gated() -> FnEndpoint {
    FnEndpoint::new("gated", |_inv: &Invocation<'_>| Ok(text("secret"))).with_description(
        Description::new("gated")
            .verb(Verb::Source)
            .requires("urn:cap:example:read")
            .output("text/plain"),
    )
}

fn stealth() -> FnEndpoint {
    FnEndpoint::new("stealth", |inv: &Invocation<'_>| {
        if inv.capability.allows("urn:cap:example:read") {
            Ok(text("secret"))
        } else {
            Err(Error::Denied("urn:cap:example:read".into()))
        }
    })
    .with_description(
        Description::new("stealth")
            .verb(Verb::Source)
            .output("text/plain"),
    )
}

#[test]
fn enforced_catches_an_undeclared_denial_and_passes_a_declared_one() {
    let space = EndpointSpace::new()
        .bind(Exact::new("urn:example:gated"), gated())
        .bind(Exact::new("urn:example:stealth"), stealth());
    let report = report_of(space);
    assert_caught(
        &report,
        Check::Enforced,
        "declares no capability but refused with `Denied`",
    );
    assert!(
        against(&report, "gated")
            .iter()
            .all(|f| f.check != Check::Enforced),
        "a declared, kernel-enforced scope is clean:\n{}",
        report.to_text()
    );
}

struct Leaky;

impl ikigai_core::Endpoint for Leaky {
    fn invoke<'life0, 'life1, 'life2, 'async_trait>(
        &'life0 self,
        _inv: &'life1 Invocation<'life2>,
    ) -> std::pin::Pin<
        Box<
            dyn std::future::Future<Output = ikigai_core::Result<Representation>>
                + Send
                + 'async_trait,
        >,
    >
    where
        'life0: 'async_trait,
        'life1: 'async_trait,
        'life2: 'async_trait,
        Self: 'async_trait,
    {
        Box::pin(async move { Ok(text("ok")) })
    }

    fn name(&self) -> &str {
        "leaky"
    }

    fn describe(&self) -> Description {
        Description::new("leaky")
            .verb(Verb::Source)
            .requires("urn:cap:example:write")
            .action(ActionSpec::new(Verb::Sink).input(ArgSpec::new("content").class(XSD_STRING)))
            .output("text/plain")
    }
}

#[test]
fn enforced_reports_an_action_that_resolves_under_no_grants() {
    let space = EndpointSpace::new().bind(Exact::new("urn:example:leaky"), Leaky);
    let report = report_of(space);
    assert!(
        of(&report, Check::Enforced)
            .iter()
            .all(|f| f.verb != Some(lib::Verb::Source)),
        "{}",
        report.to_text()
    );
    assert!(of(&report, Check::Enforced).is_empty(), "{}", report.to_text());
}

// ----- OUTPUTS ----------------------------------------------------------------

fn mislabeled() -> FnEndpoint {
    FnEndpoint::new("mislabeled", |_inv: &Invocation<'_>| {
        Ok(turtle(
            "<urn:ikigai:endpoint:mislabeled> <http://purl.org/dc/terms/title> [ ] .",
        ))
    })
    .with_description(
        Description::new("mislabeled")
            .verb(Verb::Source)
            .output("application/sparql-results+json"),
    )
}

fn unannounced() -> FnEndpoint {
    FnEndpoint::new("unannounced", |_inv: &Invocation<'_>| Ok(text("x")))
        .with_description(Description::new("unannounced").verb(Verb::Source))
}

fn parameterized() -> FnEndpoint {
    FnEndpoint::new("parameterized", |_inv: &Invocation<'_>| Ok(text("x"))).with_description(
        Description::new("parameterized")
            .verb(Verb::Source)
            .output("text/plain;charset=utf-8"),
    )
}

fn relabel() -> FnEndpoint {
    FnEndpoint::new("relabel", |inv: &Invocation<'_>| {
        let label = inv.inline_str("as").unwrap_or("application/xml");
        Ok(Representation::new(
            ReprType::new(label),
            b"<svg/>".to_vec(),
        ))
    })
    .with_description(
        Description::new("relabel")
            .verb(Verb::Source)
            .input(ArgSpec::new("as").class(XSD_STRING).optional())
            .output("application/xml"),
    )
}

#[test]
fn outputs_catches_a_declared_type_the_action_does_not_serve() {
    let space = EndpointSpace::new()
        .bind(Exact::new("urn:example:mislabeled"), mislabeled())
        .bind(Exact::new("urn:example:unannounced"), unannounced())
        .bind(Exact::new("urn:example:parameterized"), parameterized());
    let report = report_of(space);
    assert_caught(
        &report,
        Check::Outputs,
        "served `text/turtle` with its minimal inputs but declares only \
         `application/sparql-results+json`",
    );
    assert_caught(
        &report,
        Check::Outputs,
        "served `text/plain` but declares no output",
    );
    assert!(
        against(&report, "mislabeled")
            .iter()
            .all(|f| f.check == Check::Outputs),
        "{}",
        report.to_text()
    );
    assert!(
        against(&report, "parameterized")
            .iter()
            .all(|f| f.check != Check::Outputs),
        "{}",
        report.to_text()
    );
    assert_eq!(of(&report, Check::Outputs).len(), 2, "{}", report.to_text());
    assert!(report.unprobed.is_empty(), "{}", report.to_text());
}

#[test]
fn outputs_honours_a_callers_as_label_and_says_it_saw_only_that() {
    let space = EndpointSpace::new().bind(Exact::new("urn:example:relabel"), relabel());
    let report = Suite::new()
        .fixture(Fixture::new("relabel", lib::Verb::Source).arg("as", "image/svg+xml"))
        .run_blocking(&kernel(space));
    assert!(of(&report, Check::Outputs).is_empty(), "{}", report.to_text());
    let text = report.to_text();
    assert!(
        text.contains(
            "unprobed: relabel source OUTPUTS: served the caller's `as=image/svg+xml` label"
        ),
        "{text}"
    );
    assert!(
        text.contains("fixture: relabel source as=\"image/svg+xml\""),
        "{text}"
    );

    let space = EndpointSpace::new().bind(Exact::new("urn:example:relabel"), relabel());
    let report = report_of(space);
    assert!(of(&report, Check::Outputs).is_empty(), "{}", report.to_text());
    assert!(report.unprobed.is_empty(), "{}", report.to_text());
}

#[test]
fn outputs_reads_a_mutating_action_from_the_one_firing_the_pipeline_probe_makes() {
    let fired = Arc::new(AtomicUsize::new(0));
    let counter = fired.clone();
    let put = FnEndpoint::new("notes-put", move |inv: &Invocation<'_>| {
        counter.fetch_add(1, Ordering::SeqCst);
        let body = inv.inline_str("content")?;
        Ok(Representation::new(
            ReprType::new("application/json"),
            format!("{{\"stored\": {}}}", body.len()).into_bytes(),
        ))
    })
    .with_description(
        Description::new("notes-put")
            .verb(Verb::Sink)
            .requires("urn:cap:example:write")
            .input(ArgSpec::new("content").class(XSD_STRING))
            .output("text/plain"),
    );
    let delete = FnEndpoint::new("notes-delete", |_inv: &Invocation<'_>| Ok(text("gone")))
        .with_description(
            Description::new("notes-delete")
                .verb(Verb::Delete)
                .requires("urn:cap:example:write")
                .output("text/plain"),
        );
    let space = EndpointSpace::new()
        .bind(Exact::new("urn:example:notes-put"), put)
        .bind(Exact::new("urn:example:notes-delete"), delete);
    let report = report_of(space);
    assert_caught(
        &report,
        Check::Outputs,
        "served `application/json` with its minimal inputs but declares only `text/plain`",
    );
    assert_eq!(
        fired.load(Ordering::SeqCst),
        1,
        "Sink is fired once, under root"
    );
    assert!(
        report.to_text().contains(
            "unprobed: notes-delete delete OUTPUTS: never fired under root: a mutating \
             action is fired only by the pipeline probe"
        ),
        "{}",
        report.to_text()
    );
    assert!(
        against(&report, "notes-delete")
            .iter()
            .all(|f| f.check != Check::Outputs),
        "{}",
        report.to_text()
    );
}

#[test]
fn outputs_can_be_left_out_like_any_other_check() {
    let space = EndpointSpace::new().bind(Exact::new("urn:example:mislabeled"), mislabeled());
    let report = Suite::new()
        .checks(Checks::all() - Checks::outputs())
        .run_blocking(&kernel(space));
    assert!(report.is_clean(), "{}", report.to_text());
    assert!(report.to_text().contains("skipped: OUTPUTS"), "{}", report.to_text());
}

fn assert_clean(report: &Report) {
    assert!(report.is_clean(), "{}", report.to_text());
}

// ----- SKOLEM-RDF -------------------------------------------------------------

fn blank_face() -> FnEndpoint {
    FnEndpoint::new("blank-graph", |_inv: &Invocation<'_>| {
        Ok(turtle(
            "@prefix ik: <https://ikigai-rs.dev/ns#> .\n\
             <urn:ikigai:endpoint:blank-graph> a ik:Endpoint ; ik:input [ ik:inputName \"in\" ] .",
        ))
    })
    .with_description(
        Description::new("blank-graph")
            .verb(Verb::Source)
            .output(TURTLE),
    )
}

fn unparseable_face() -> FnEndpoint {
    FnEndpoint::new("broken-graph", |_inv: &Invocation<'_>| {
        Ok(turtle("<urn:a> <urn:p> "))
    })
    .with_description(
        Description::new("broken-graph")
            .verb(Verb::Source)
            .output(TURTLE),
    )
}

fn face_not_served() -> FnEndpoint {
    FnEndpoint::new("no-face", |_inv: &Invocation<'_>| Ok(text("plain only"))).with_description(
        Description::new("no-face")
            .verb(Verb::Source)
            .output("text/plain")
            .output(TURTLE),
    )
}

#[test]
fn skolem_rdf_catches_blank_nodes_unparseable_and_unserved_faces() {
    let space = EndpointSpace::new()
        .bind(Exact::new("urn:example:blank"), blank_face())
        .bind(Exact::new("urn:example:broken"), unparseable_face())
        .bind(Exact::new("urn:example:no-face"), face_not_served());
    let report = report_of(space);
    assert_caught(&report, Check::SkolemRdf, "has 1 blank node(s)");
    assert_caught(&report, Check::SkolemRdf, "does not parse as text/turtle");
    assert_caught(
        &report,
        Check::SkolemRdf,
        "asked for the `text/turtle` face and got `text/plain`",
    );
}

// ----- VOCABULARY -------------------------------------------------------------

fn invented_terms() -> FnEndpoint {
    FnEndpoint::new("invented", |_inv: &Invocation<'_>| {
        Ok(turtle(
            "@prefix ik: <https://ikigai-rs.dev/ns#> .\n\
             @prefix dcterms: <http://purl.org/dc/terms/> .\n\
             @prefix mine: <urn:example:ns#> .\n\
             <urn:ikigai:endpoint:invented> a ik:Endpoint, mine:Widget ;\n\
               ik:id \"invented\" ; ik:madeUp \"x\" ; dcterms:title \"t\" ; mine:size 3 .",
        ))
    })
    .with_description(
        Description::new("invented")
            .verb(Verb::Source)
            .output(TURTLE),
    )
}

#[test]
fn vocabulary_catches_invented_terms_and_honours_registered_namespaces() {
    let space = EndpointSpace::new().bind(Exact::new("urn:example:invented"), invented_terms());
    let report = report_of(space);
    let details = only(&report, Check::Vocabulary);
    assert!(
        details
            .iter()
            .any(|d| d.contains("`https://ikigai-rs.dev/ns#madeUp`")),
        "{}",
        report.to_text()
    );
    assert!(
        details
            .iter()
            .any(|d| d.contains("`urn:example:ns#Widget`")),
        "{}",
        report.to_text()
    );
    assert!(
        details.iter().any(|d| d.contains("`urn:example:ns#size`")),
        "{}",
        report.to_text()
    );
    assert!(
        !details
            .iter()
            .any(|d| d.contains("dc/terms") || d.contains("ns#Endpoint") || d.contains("ns#id")),
        "well-known and defined terms are not findings:\n{}",
        report.to_text()
    );

    let space = EndpointSpace::new().bind(Exact::new("urn:example:invented"), invented_terms());
    let report = Suite::new()
        .namespace("urn:example:ns#")
        .run_blocking(&kernel(space));
    let details = only(&report, Check::Vocabulary);
    assert_eq!(details.len(), 1, "{}", report.to_text());
    assert!(details[0].contains("madeUp"));
    assert!(report
        .to_text()
        .contains("module namespaces: urn:example:ns#"));
}

// ----- CACHEABLE --------------------------------------------------------------

fn volatile_composite() -> ikigai_core::AsyncFnEndpoint {
    ikigai_core::AsyncFnEndpoint::new("composite", |inv| {
        Box::pin(async move {
            let live = inv
                .source(&ikigai_core::Iri::parse("urn:example:clock").unwrap())
                .await?;
            Ok(text(live.bytes).cacheable())
        })
    })
    .with_description(
        Description::new("composite")
            .verb(Verb::Source)
            .output("text/plain"),
    )
}

fn clock() -> FnEndpoint {
    FnEndpoint::new("clock", |_inv: &Invocation<'_>| Ok(text("now"))).with_description(
        Description::new("clock")
            .verb(Verb::Source)
            .output("text/plain"),
    )
}

fn threadless() -> FnEndpoint {
    FnEndpoint::new("config", |_inv: &Invocation<'_>| {
        Ok(text("theme = dark").cacheable())
    })
    .with_description(
        Description::new("config")
            .verb(Verb::Source)
            .output("text/plain"),
    )
}

fn three_of_them() -> EndpointSpace {
    EndpointSpace::new()
        .bind(Exact::new("urn:example:composite"), volatile_composite())
        .bind(Exact::new("urn:example:clock"), clock())
        .bind(Exact::new("urn:example:config"), threadless())
}


#[test]
fn cacheable_passes_a_threaded_stateful_read() {
    let stateful = FnEndpoint::new("notes", |_inv: &Invocation<'_>| {
        Ok(text("hello").cacheable().depends_on("urn:example:notes"))
    })
    .with_description(
        Description::new("notes")
            .verb(Verb::Source)
            .output("text/plain"),
    );
    let space = EndpointSpace::new().bind(Exact::new("urn:example:notes"), stateful);
    let report = report_of(space);
    assert!(of(&report, Check::Cacheable).is_empty(), "{}", report.to_text());
}

#[test]
fn live_catches_a_resource_that_silently_became_cacheable() {
    let space = EndpointSpace::new().bind(Exact::new("urn:example:clock"), clock());
    let report = Suite::new().live("clock").run_blocking(&kernel(space));
    assert_clean(&report);
    assert!(
        report.to_text().contains("declared live: clock"),
        "{}",
        report.to_text()
    );

    let space = EndpointSpace::new().bind(Exact::new("urn:example:config"), threadless());
    let report = Suite::new().live("config").run_blocking(&kernel(space));
    assert_caught(
        &report,
        Check::Cacheable,
        "declared live (`Suite::live`) but the kernel returned it cacheable \
         (`Expiry::Never` — permanently)",
    );
    assert_eq!(of(&report, Check::Cacheable).len(), 1, "{}", report.to_text());

    let space = EndpointSpace::new().bind(Exact::new("urn:example:clock"), clock());
    let report = report_of(space);
    assert!(of(&report, Check::Cacheable).is_empty(), "{}", report.to_text());

    let space = EndpointSpace::new().bind(Exact::new("urn:example:clock"), clock());
    let report = Suite::new()
        .live("clock")
        .cacheable("clock")
        .run_blocking(&kernel(space));
    assert_caught(
        &report,
        Check::Cacheable,
        "declared both cacheable (`Suite::cacheable`) and live (`Suite::live`)",
    );
}

// ----- per-check opt-outs -----------------------------------------------------

fn three_violations() -> FnEndpoint {
    FnEndpoint::new("urn:example:review", |_inv: &Invocation<'_>| {
        Ok(turtle(
            "@prefix ik: <https://ikigai-rs.dev/ns#> .\n\
             <urn:ikigai:endpoint:review> a ik:Endpoint ; ik:quote [ ik:madeUp \"x\" ] .",
        ))
    })
    .with_description(
        Description::new("urn:example:review")
            .verb(Verb::Source)
            .output(TURTLE),
    )
}

#[test]
fn a_per_check_opt_out_silences_one_rule_and_keeps_every_other() {
    let space = EndpointSpace::new().bind(Exact::new("urn:example:review"), three_violations());
    let report = report_of(space);
    assert_caught(&report, Check::Names, "is not a kebab-case noun");
    assert_caught(&report, Check::SkolemRdf, "has 1 blank node(s)");
    assert_caught(&report, Check::Vocabulary, "ns#quote");

    let space = EndpointSpace::new().bind(Exact::new("urn:example:review"), three_violations());
    let report = Suite::new()
        .opt_out_check(
            "urn:example:review",
            Check::Vocabulary,
            "ik:quote lands in the next vocabulary release; pinned by hand until then",
        )
        .run_blocking(&kernel(space));
    assert!(of(&report, Check::Vocabulary).is_empty(), "{}", report.to_text());
    assert_caught(&report, Check::SkolemRdf, "has 1 blank node(s)");
    assert_caught(&report, Check::Names, "is not a kebab-case noun");
    assert!(
        report.to_text().contains(
            "opted out: urn:example:review VOCABULARY: ik:quote lands in the next vocabulary"
        ),
        "the waiver and its reason are in the record:\n{}",
        report.to_text()
    );

    let space = EndpointSpace::new().bind(Exact::new("urn:example:review"), three_violations());
    let report = Suite::new()
        .opt_out_check(
            "urn:example:review",
            Check::Names,
            "the id is an IRI by contract",
        )
        .run_blocking(&kernel(space));
    assert!(of(&report, Check::Names).is_empty(), "{}", report.to_text());
    assert_caught(&report, Check::Vocabulary, "ns#quote");

    let space = EndpointSpace::new()
        .bind(Exact::new("urn:example:review"), three_violations())
        .bind(Exact::new("urn:example:blank"), blank_face());
    let report = Suite::new()
        .opt_out_check(
            "urn:example:review",
            Check::SkolemRdf,
            "another repo owns the fix",
        )
        .run_blocking(&kernel(space));
    assert!(
        against(&report, "urn:example:review")
            .iter()
            .all(|f| f.check != Check::SkolemRdf),
        "{}",
        report.to_text()
    );
    assert!(
        against(&report, "blank-graph")
            .iter()
            .any(|f| f.check == Check::SkolemRdf),
        "{}",
        report.to_text()
    );
}

// ----- DECLARATIONS -----------------------------------------------------------

fn notes_write() -> FnEndpoint {
    FnEndpoint::new("notes-write", |inv: &Invocation<'_>| {
        let _ = inv.inline_str("content")?;
        Ok(text("written"))
    })
    .with_description(
        Description::new("notes-write")
            .verb(Verb::Sink)
            .requires("urn:cap:notes:write")
            .input(ArgSpec::new("content").class(XSD_STRING))
            .output("text/plain"),
    )
}

fn notes_write_ungated() -> FnEndpoint {
    FnEndpoint::new("notes-write", |inv: &Invocation<'_>| {
        let _ = inv.inline_str("content")?;
        Ok(text("written"))
    })
    .with_description(
        Description::new("notes-write")
            .verb(Verb::Sink)
            .input(ArgSpec::new("content").class(XSD_STRING))
            .output("text/plain"),
    )
}

fn volatile() -> FnEndpoint {
    let n = Arc::new(AtomicUsize::new(0));
    FnEndpoint::new("tick", move |_inv: &Invocation<'_>| {
        Ok(text(n.fetch_add(1, Ordering::SeqCst).to_string()))
    })
    .with_description(
        Description::new("tick")
            .verb(Verb::Source)
            .output("text/plain"),
    )
}

#[test]
fn live_on_a_mutating_verb_is_reported_rather_than_silently_inert() {
    let space = EndpointSpace::new().bind(Exact::new("urn:example:notes"), notes_write());
    let report = Suite::new()
        .live("notes-write")
        .run_blocking(&kernel(space));
    assert!(
        of(&report, Check::Cacheable).is_empty(),
        "CACHEABLE still says nothing — that is the point:\n{}",
        report.to_text()
    );
    assert_caught(&report, Check::Declarations, "declares no cacheable verb");
    assert_caught(&report, Check::Declarations, "declared live");
    assert!(!report.is_clean(), "{}", report.to_text());
    assert!(
        report.to_text().contains("declared live: notes-write"),
        "the misleading line is still printed — now beside the finding:\n{}",
        report.to_text()
    );

    let space = EndpointSpace::new().bind(Exact::new("urn:example:tick"), volatile());
    let report = Suite::new().live("tick").run_blocking(&kernel(space));
    assert!(report.is_clean(), "{}", report.to_text());
}

#[test]
fn a_declaration_for_an_id_nothing_binds_is_reported() {
    let space = EndpointSpace::new().bind(Exact::new("urn:example:upper"), conforming());
    let report = Suite::new()
        .pure("upper")
        .live("uppr")
        .cacheable("urn:example:upper")
        .fixture(Fixture::new("uppercase", lib::Verb::Source).arg("in", "x"))
        .opt_out("uper", None, "meant `upper`")
        .opt_out_check("Upper", Check::Names, "the id is a proper noun")
        .run_blocking(&kernel(space));
    for id in ["uppr", "urn:example:upper", "uppercase", "uper", "Upper"] {
        assert!(
            against(&report, id).iter().any(|f| f.check == Check::Declarations
                && f.detail.contains("no endpoint with that id")),
            "`{id}` was not reported:\n{}",
            report.to_text()
        );
    }
    assert_eq!(of(&report, Check::Declarations).len(), 5, "{}", report.to_text());
    assert!(against(&report, "upper").is_empty(), "{}", report.to_text());
}

#[test]
fn a_waiver_for_a_check_that_could_not_have_run_is_reported() {
    let space = EndpointSpace::new().bind(Exact::new("urn:example:upper"), conforming());
    let report = Suite::new()
        .pure("upper")
        .opt_out_check("upper", Check::SkolemRdf, "no graph face")
        .run_blocking(&kernel(space));
    assert_caught(&report, Check::Declarations, "declares no RDF face");

    let space = EndpointSpace::new().bind(Exact::new("urn:example:notes"), notes_write());
    let report = Suite::new()
        .opt_out_check("notes-write", Check::Cacheable, "writes are never cached")
        .run_blocking(&kernel(space));
    assert_caught(&report, Check::Declarations, "declares no cacheable verb");

    let space = EndpointSpace::new().bind(Exact::new("urn:example:upper"), conforming());
    let report = Suite::new()
        .pure("upper")
        .checks(Checks::all() - Checks::rdf())
        .opt_out_check("upper", Check::Vocabulary, "terms land next release")
        .run_blocking(&kernel(space));
    assert_caught(&report, Check::Declarations, "is not selected");

    let space = EndpointSpace::new().bind(Exact::new("urn:example:upper"), conforming());
    let report = Suite::new()
        .opt_out("upper", None, "calls a paid API")
        .opt_out_check("upper", Check::Enforced, "capability comes from the host")
        .run_blocking(&kernel(space));
    assert_caught(
        &report,
        Check::Declarations,
        "every action of it is opted out",
    );

    let space = EndpointSpace::new().bind(Exact::new("urn:example:unannounced"), unannounced());
    let report = Suite::new()
        .opt_out_check(
            "unannounced",
            Check::Outputs,
            "a pass-through face core cannot spell",
        )
        .run_blocking(&kernel(space));
    assert!(
        of(&report, Check::Declarations).is_empty(),
        "a waiver of a check that WOULD have fired is not inert:\n{}",
        report.to_text()
    );
    assert!(report.is_clean(), "{}", report.to_text());
}

#[test]
fn a_fixture_binding_that_names_no_template_variable_is_reported() {
    let by_n = FnEndpoint::new("pr", |inv: &Invocation<'_>| {
        let n = inv.bindings.get("n").unwrap_or_default();
        Ok(text(format!("pr {n}"))
            .cacheable()
            .depends_on("urn:repo:pr"))
    })
    .with_description(
        Description::new("pr")
            .verb(Verb::Source)
            .input(ArgSpec::new("n").class(XSD_INTEGER).binding())
            .output("text/plain"),
    );
    let space = EndpointSpace::new().bind(UriTemplate::parse("urn:repo:pr:{n}").unwrap(), by_n);
    let report = Suite::new()
        .fixture(Fixture::new("pr", lib::Verb::Source).binding("number", "42"))
        .run_blocking(&kernel(space));
    assert_caught(
        &report,
        Check::Declarations,
        "is not a template variable of any pattern",
    );
    assert!(
        report.to_text().contains("(`n`)"),
        "the finding names the variables there ARE:\n{}",
        report.to_text()
    );
}

#[test]
fn a_fixture_for_an_action_the_endpoint_does_not_declare_is_reported() {
    let space = EndpointSpace::new().bind(Exact::new("urn:example:upper"), conforming());
    let report = Suite::new()
        .pure("upper")
        .fixture(Fixture::new("upper", lib::Verb::Sink).arg("content", "x"))
        .run_blocking(&kernel(space));
    assert_caught(&report, Check::Declarations, "does not declare");

    let space = EndpointSpace::new().bind(Exact::new("urn:example:upper"), conforming());
    let report = Suite::new()
        .opt_out("upper", Some(lib::Verb::Source), "calls a paid API")
        .fixture(Fixture::new("upper", lib::Verb::Source).arg("in", "x"))
        .run_blocking(&kernel(space));
    assert_caught(
        &report,
        Check::Declarations,
        "an action excluded by `Suite::opt_out`",
    );
}

#[test]
fn an_opt_out_that_excluded_nothing_is_reported() {
    let space = EndpointSpace::new().bind(Exact::new("urn:example:upper"), conforming());
    let report = Suite::new()
        .pure("upper")
        .opt_out("upper", Some(lib::Verb::Sink), "would write to the store")
        .run_blocking(&kernel(space));
    assert_caught(&report, Check::Declarations, "declares no sink action");
    assert!(
        of(&report, Check::Declarations)
            .iter()
            .any(|f| f.detail.contains("it declares source")),
        "the finding names the verbs there ARE:\n{}",
        report.to_text()
    );
}

#[test]
fn a_registered_namespace_that_accounts_for_nothing_is_reported() {
    let space = EndpointSpace::new().bind(Exact::new("urn:example:invented"), invented_terms());
    let report = Suite::new()
        .namespace("urn:example:ns#")
        .namespace("https://example.com/unused#")
        .run_blocking(&kernel(space));
    let inert: Vec<String> = only(&report, Check::Declarations);
    assert_eq!(
        inert.len(),
        1,
        "only the unused one is reported:\n{}",
        report.to_text()
    );
    assert!(inert[0].contains("https://example.com/unused#"), "{}", report.to_text());
    assert!(inert[0].contains("no term in any probed face"), "{}", report.to_text());
    assert!(
        of(&report, Check::Declarations)
            .iter()
            .all(|f| f.endpoint == "(suite)"),
        "a namespace has no endpoint id:\n{}",
        report.to_text()
    );

    let space = EndpointSpace::new().bind(Exact::new("urn:example:invented"), invented_terms());
    let report = Suite::new()
        .checks(Checks::all() - Checks::rdf())
        .namespace("urn:example:ns#")
        .run_blocking(&kernel(space));
    assert_caught(&report, Check::Declarations, "VOCABULARY is not selected");
}

#[test]
fn pure_on_a_result_that_is_never_cacheable_is_reported() {
    let space = EndpointSpace::new().bind(Exact::new("urn:example:tick"), volatile());
    let report = Suite::new().pure("tick").run_blocking(&kernel(space));
    assert!(of(&report, Check::Cacheable).is_empty(), "{}", report.to_text());
    assert_caught(
        &report,
        Check::Declarations,
        "no action of it came back cacheable",
    );
}

fn needs_json() -> FnEndpoint {
    FnEndpoint::new("json-keys", |inv: &Invocation<'_>| {
        let raw = inv.inline_str("content")?;
        if !raw.trim_start().starts_with('{') {
            return Err(Error::InvalidArgument {
                name: "content".into(),
                detail: "not a JSON object".into(),
            });
        }
        Ok(text("{}").cacheable())
    })
    .with_description(
        Description::new("json-keys")
            .verb(Verb::Source)
            .input(ArgSpec::new("content").class(XSD_STRING))
            .output("text/plain"),
    )
}

#[test]
fn a_failed_resolution_does_not_also_report_the_declaration_as_inert() {
    let space = EndpointSpace::new().bind(Exact::new("urn:example:json-keys"), needs_json());
    let report = Suite::new().pure("json-keys").run_blocking(&kernel(space));
    assert_caught(
        &report,
        Check::Cacheable,
        "did not resolve with the minimal inputs",
    );
    assert!(
        of(&report, Check::Declarations).is_empty(),
        "one failure, one finding:\n{}",
        report.to_text()
    );
}

#[test]
fn declarations_can_be_left_out_like_any_other_check() {
    let space = EndpointSpace::new().bind(Exact::new("urn:example:notes"), notes_write());
    let report = Suite::new()
        .live("notes-write")
        .checks(Checks::all() - Checks::declarations())
        .run_blocking(&kernel(space));
    assert!(report.is_clean(), "{}", report.to_text());
    assert!(
        report.to_text().contains("skipped: DECLARATIONS"),
        "{}",
        report.to_text()
    );

    let space = EndpointSpace::new().bind(Exact::new("urn:example:notes"), notes_write());
    let report = Suite::new()
        .live("notes-write")
        .opt_out_check(
            "notes-write",
            Check::Declarations,
            "earns a Source face next release; the declaration stands until then",
        )
        .run_blocking(&kernel(space));
    assert!(report.is_clean(), "{}", report.to_text());
}

fn invented_as(id: &'static str) -> FnEndpoint {
    FnEndpoint::new(id, |_inv: &Invocation<'_>| {
        Ok(turtle(
            "@prefix ik: <https://ikigai-rs.dev/ns#> .\n\
             <urn:ikigai:endpoint:x> a ik:Endpoint ; ik:madeUp \"x\" .",
        ))
    })
    .with_description(Description::new(id).verb(Verb::Source).output(TURTLE))
}

fn cms_graph() -> FnEndpoint {
    FnEndpoint::new("cms-graph", |_inv: &Invocation<'_>| {
        Ok(turtle(
            "<urn:example:doc> <http://purl.org/dc/terms/title> \"t\" .",
        ))
    })
    .with_description(
        Description::new("cms-graph")
            .verb(Verb::Source)
            .output(TURTLE),
    )
}

#[test]
fn identical_waivers_group_onto_one_line_and_checked_says_it_was_partial() {
    let space = EndpointSpace::new()
        .bind(Exact::new("urn:example:a"), invented_as("a-face"))
        .bind(Exact::new("urn:example:b"), invented_as("b-face"))
        .bind(Exact::new("urn:example:c"), invented_as("c-face"))
        .bind(Exact::new("urn:example:graph"), cms_graph());
    const REASON: &str = "ik:madeUp lands in the next vocabulary release; another repo owns it";
    let report = Suite::new()
        .opt_out_check("a-face", Check::Vocabulary, REASON)
        .opt_out_check("b-face", Check::Vocabulary, REASON)
        .opt_out_check("c-face", Check::Vocabulary, REASON)
        .run_blocking(&kernel(space));
    assert_clean(&report);
    let text = report.to_text();
    assert!(
        text.contains(&format!(
            "opted out: a-face b-face c-face VOCABULARY: {REASON}"
        )),
        "{text}"
    );
    assert_eq!(
        text.matches(REASON).count(),
        1,
        "the reason prints once:\n{text}"
    );
    assert!(text.contains("VOCABULARY*"), "{text}");
    assert!(
        text.contains("* VOCABULARY ran on 1 of 4 endpoint(s); waived on the rest"),
        "{text}"
    );

    let space = EndpointSpace::new()
        .bind(Exact::new("urn:example:a"), invented_as("a-face"))
        .bind(Exact::new("urn:example:graph"), cms_graph());
    let report = Suite::new()
        .opt_out_check("a-face", Check::Vocabulary, REASON)
        .opt_out_check("z-face", Check::Vocabulary, REASON)
        .run_blocking(&kernel(space));
    assert_eq!(report.walked.to_vec(), ["a-face", "cms-graph"], "{}", report.to_text());
    let text = report.to_text();
    assert!(
        text.contains("* VOCABULARY ran on 1 of 2 endpoint(s)"),
        "the bogus waiver does not count against coverage:\n{text}"
    );
    assert!(
        against(&report, "z-face")
            .iter()
            .any(|f| f.check == Check::Declarations),
        "and it is reported as the inert declaration it is:\n{}",
        report.to_text()
    );
}

// ----- what was probed ---------------------------------------------------------

#[test]
fn the_report_names_the_rdf_faces_the_walk_actually_reached() {
    let empty_graph = FnEndpoint::new("ik-context", |_inv: &Invocation<'_>| {
        Ok(Representation::new(
            ReprType::new("application/ld+json"),
            br#"{"@context": {"@vocab": "https://ikigai-rs.dev/ns#"}}"#.to_vec(),
        ))
    })
    .with_description(
        Description::new("ik-context")
            .verb(Verb::Source)
            .output("application/ld+json"),
    );
    let space = EndpointSpace::new()
        .bind(Exact::new("urn:example:context"), empty_graph)
        .bind(Exact::new("urn:example:graph"), cms_graph());
    let report = report_of(space);
    assert_clean(&report);
    let text = report.to_text();
    assert!(
        text.contains("probed 2 face(s) across 2 endpoint(s)"),
        "{text}"
    );
    assert!(
        text.contains("probed: cms-graph source `text/turtle`: 1 triple(s)"),
        "{text}"
    );
    assert!(
        text.contains(
            "probed: ik-context source `application/ld+json`: 0 triple(s) — nothing was checked"
        ),
        "{text}"
    );

    let space = EndpointSpace::new().bind(Exact::new("urn:example:upper"), conforming());
    let report = Suite::new().pure("upper").run_blocking(&kernel(space));
    assert_clean(&report);
    assert_eq!(report.probed.len(), 1, "{}", report.to_text());
    assert_eq!(report.probed[0].face, "text/plain");
    assert_eq!(
        report.probed[0].bytes, 1,
        "the minimal call upper-cases `x`"
    );
    assert!(
        report
            .to_text()
            .contains("probed: upper source `text/plain`: 1 byte(s)"),
        "{}",
        report.to_text()
    );

    let space = EndpointSpace::new().bind(Exact::new("urn:example:upper"), conforming());
    let nothing = Suite::new()
        .checks(Checks::names())
        .run_blocking(&kernel(space));
    assert!(nothing.probed.is_empty(), "{}", nothing.to_text());
    assert!(
        nothing.to_text().contains("probed: nothing — no action"),
        "{}",
        nothing.to_text()
    );
}

// ----- PIPELINE ---------------------------------------------------------------

fn sink_without_content() -> FnEndpoint {
    FnEndpoint::new("notes-write", |inv: &Invocation<'_>| {
        Ok(text(inv.inline_str("body")?))
    })
    .with_description(
        Description::new("notes-write")
            .verb(Verb::Sink)
            .input(ArgSpec::new("body").class(XSD_STRING))
            .output("text/plain"),
    )
}

fn content_ignored() -> FnEndpoint {
    FnEndpoint::new("wc", |inv: &Invocation<'_>| {
        Ok(text(inv.inline_str("in")?.lines().count().to_string()))
    })
    .with_description(
        Description::new("wc")
            .verb(Verb::Source)
            .input(ArgSpec::new("content").class(XSD_STRING))
            .output("text/plain"),
    )
}

#[test]
fn pipeline_catches_a_sink_without_content_and_a_content_nobody_reads() {
    let space = EndpointSpace::new()
        .bind(
            Exact::new("urn:example:notes-write"),
            sink_without_content(),
        )
        .bind(Exact::new("urn:example:wc"), content_ignored());
    let report = report_of(space);
    assert_caught(
        &report,
        Check::Pipeline,
        "declares by-value inputs (`body`) but none named `content`",
    );
    assert_caught(
        &report,
        Check::Pipeline,
        "it reports `in` missing: it reads an input its contract does not declare",
    );
}

// ----- NAMES ------------------------------------------------------------------

#[test]
fn names_catches_camel_case_and_full_iri_ids() {
    let camel = FnEndpoint::new("toUpper", |_inv: &Invocation<'_>| Ok(text("x"))).with_description(
        Description::new("toUpper")
            .verb(Verb::Source)
            .output("text/plain"),
    );
    let iri = FnEndpoint::new("urn:cms:graph", |_inv: &Invocation<'_>| Ok(text("x")))
        .with_description(
            Description::new("urn:cms:graph")
                .verb(Verb::Source)
                .output("text/plain"),
        );
    let space = EndpointSpace::new()
        .bind(Exact::new("urn:example:toUpper"), camel)
        .bind(Exact::new("urn:example:graph"), iri);
    let report = report_of(space);
    assert_caught(
        &report,
        Check::Names,
        "id `toUpper` is not a kebab-case noun",
    );
    assert_caught(
        &report,
        Check::Names,
        "id `urn:cms:graph` is not a kebab-case noun",
    );
}

// ----- selection, opt-outs, fixtures -------------------------------------------

#[test]
fn a_skipped_check_finds_nothing_and_is_printed_as_skipped() {
    let space = EndpointSpace::new().bind(Exact::new("urn:example:blank"), blank_face());
    let report = Suite::new()
        .checks(Checks::all() - Checks::rdf())
        .run_blocking(&kernel(space));
    assert!(of(&report, Check::SkolemRdf).is_empty());
    assert!(of(&report, Check::Vocabulary).is_empty());
    assert!(
        report.to_text().contains("skipped: SKOLEM-RDF VOCABULARY"),
        "{}",
        report.to_text()
    );
}

#[test]
fn an_opted_out_action_is_not_invoked_but_still_read() {
    let space = EndpointSpace::new()
        .bind(Exact::new("urn:example:stealth"), stealth())
        .bind(Exact::new("urn:example:toUpper"), {
            FnEndpoint::new("toUpper", |_inv: &Invocation<'_>| Ok(text("x"))).with_description(
                Description::new("toUpper")
                    .verb(Verb::Source)
                    .output("text/plain"),
            )
        });
    let report = Suite::new()
        .opt_out("stealth", Some(lib::Verb::Source), "would call a paid API")
        .opt_out("toUpper", None, "every verb")
        .run_blocking(&kernel(space));
    assert!(of(&report, Check::Enforced).is_empty(), "{}", report.to_text());
    assert_caught(&report, Check::Names, "id `toUpper`");
    let text = report.to_text();
    assert!(
        text.contains("opted out: stealth source: would call a paid API"),
        "{text}"
    );
    assert!(text.contains("opted out: toUpper: every verb"), "{text}");
}

#[test]
fn a_fixture_supplies_inputs_the_spec_cannot_derive() {
    let needs_json = FnEndpoint::new("json-keys", |inv: &Invocation<'_>| {
        let raw = inv.inline_str("content")?;
        if !raw.trim_start().starts_with('{') {
            return Err(Error::InvalidArgument {
                name: "content".into(),
                detail: "not a JSON object".into(),
            });
        }
        Ok(turtle("<urn:example:doc> <http://purl.org/dc/terms/title> \"t\" .").cacheable())
    })
    .with_description(
        Description::new("json-keys")
            .verb(Verb::Source)
            .input(ArgSpec::new("content").class(XSD_STRING))
            .output(TURTLE),
    );
    let space = EndpointSpace::new().bind(Exact::new("urn:example:json-keys"), needs_json);
    let report = report_of(space);
    assert_caught(
        &report,
        Check::SkolemRdf,
        "did not resolve with the minimal inputs",
    );
    assert_eq!(
        report
            .findings
            .iter()
            .filter(|f| f.detail.contains("did not resolve"))
            .count(),
        1,
        "{}",
        report.to_text()
    );
    assert!(
        report
            .to_text()
            .contains("unprobed: json-keys source OUTPUTS: the minimal resolution failed"),
        "{}",
        report.to_text()
    );

    let space = EndpointSpace::new().bind(
        Exact::new("urn:example:json-keys"),
        FnEndpoint::new("json-keys", |_inv: &Invocation<'_>| {
            Ok(turtle("<urn:example:doc> <http://purl.org/dc/terms/title> \"t\" .").cacheable())
        })
        .with_description(
            Description::new("json-keys")
                .verb(Verb::Source)
                .input(ArgSpec::new("content").class(XSD_STRING))
                .output(TURTLE),
        ),
    );
    let report = Suite::new()
        .fixture(Fixture::new("json-keys", lib::Verb::Source).arg("content", "{}"))
        .pure("json-keys")
        .run_blocking(&kernel(space));
    assert!(report.is_clean(), "{}", report.to_text());
    assert!(
        report
            .to_text()
            .contains("fixture: json-keys source content=\"{}\""),
        "{}",
        report.to_text()
    );
}

#[test]
fn a_fixture_binding_fills_a_template_variable() {
    let by_n = FnEndpoint::new("pr", |inv: &Invocation<'_>| {
        let n: u32 = inv
            .bindings
            .get("n")
            .and_then(|n| n.parse().ok())
            .ok_or_else(|| Error::NotFound("no such PR".into()))?;
        Ok(text(format!("pr {n}"))
            .cacheable()
            .depends_on("urn:repo:pr"))
    })
    .with_description(
        Description::new("pr")
            .verb(Verb::Source)
            .input(ArgSpec::new("n").class(XSD_INTEGER).binding())
            .output("text/plain"),
    );
    let space = EndpointSpace::new().bind(UriTemplate::parse("urn:repo:pr:{n}").unwrap(), by_n);
    let report = report_of(space);
    assert!(report.is_clean(), "{}", report.to_text());
}

#[test]
fn the_kernels_own_operations_are_skipped_unless_asked() {
    let space = EndpointSpace::new().bind(Exact::new("urn:example:upper"), conforming());
    let skipped = Suite::new().pure("upper").run_blocking(&kernel(space));
    assert_eq!(skipped.endpoints, 1, "{}", skipped.to_text());

    let space = EndpointSpace::new().bind(Exact::new("urn:example:upper"), conforming());
    let included = Suite::new()
        .pure("upper")
        .include_kernel_ops()
        .run_blocking(&kernel(space));
    assert!(included.endpoints > 1, "{}", included.to_text());
    assert!(
        included
            .findings
            .iter()
            .any(|f| f.endpoint.starts_with("kernel-")),
        "{}",
        included.to_text()
    );
}

#[test]
fn authority_catches_a_write_a_caller_holding_nothing_performed() {
    let space = EndpointSpace::new().bind(Exact::new("urn:example:notes"), notes_write_ungated());
    let report = Suite::new().run_blocking(&kernel(space));
    assert_caught(
        &report,
        Check::Authority,
        "mutated under a capability holding no grants",
    );
    assert!(
        of(&report, Check::Enforced).is_empty(),
        "ENFORCED says nothing about the fourth cell:\n{}",
        report.to_text()
    );

    let space = EndpointSpace::new().bind(Exact::new("urn:example:notes"), notes_write());
    let report = Suite::new().run_blocking(&kernel(space));
    assert!(report.is_clean(), "{}", report.to_text());

    let space = EndpointSpace::new().bind(Exact::new("urn:example:upper"), conforming());
    let report = Suite::new().pure("upper").run_blocking(&kernel(space));
    assert!(
        of(&report, Check::Authority).is_empty(),
        "a Source declaring no capability is a decision, not a defect:\n{}",
        report.to_text()
    );
}

#[test]
fn an_unobserved_mutation_is_unprobed_rather_than_a_pass() {
    let picky = FnEndpoint::new("notes-strict", |inv: &Invocation<'_>| {
        let body = inv.inline_str("content")?;
        if !body.starts_with('{') {
            return Err(Error::InvalidArgument {
                name: "content".into(),
                detail: "not a JSON object".into(),
            });
        }
        Ok(text("written"))
    })
    .with_description(
        Description::new("notes-strict")
            .verb(Verb::Sink)
            .input(ArgSpec::new("content").class(XSD_STRING))
            .output("text/plain"),
    );
    let space = EndpointSpace::new().bind(Exact::new("urn:example:strict"), picky);
    let report = Suite::new()
        .opt_out_check(
            "notes-strict",
            Check::Pipeline,
            "reads a shape, not a value",
        )
        .opt_out_check("notes-strict", Check::Outputs, "never fired")
        .run_blocking(&kernel(space));
    assert!(
        of(&report, Check::Authority).is_empty(),
        "an unobserved probe is not a violation:\n{}",
        report.to_text()
    );
    assert!(
        report.to_text().contains(
            "unprobed: notes-strict sink AUTHORITY: declares no `requires` and did not resolve"
        ),
        "the walk must say what it did not see:\n{}",
        report.to_text()
    );
}

#[test]
fn waiving_authority_where_nothing_mutates_is_reported_as_inert() {
    let space = EndpointSpace::new().bind(Exact::new("urn:example:upper"), conforming());
    let report = Suite::new()
        .pure("upper")
        .opt_out_check("upper", Check::Authority, "reads only")
        .run_blocking(&kernel(space));
    assert_caught(&report, Check::Declarations, "declares no mutating verb");
}

// ----- the builtins -------------------------------------------------------------

fn builtins_kernel() -> Kernel {
    let root = EndpointSpace::new()
        .bind(Exact::new("urn:example:toUpper"), builtins::to_upper())
        .bind(
            Exact::new("urn:example:reverseList"),
            builtins::reverse_list(),
        )
        .bind(
            UriTemplate::parse("urn:example:echo/{message}").unwrap(),
            builtins::echo(),
        );
    Kernel::new(Arc::new(root))
}




// ----- what the library makes of kernels as they are today -------------------------

#[test]
fn a_requires_without_a_verb_is_caught_statically() {
    let inert = FnEndpoint::new("link-remove", |_inv: &Invocation<'_>| Ok(text("removed")))
        .with_description(
            Description::new("link-remove")
                .summary("Strike one URL (Sink executes)")
                .requires("urn:cap:fs:write:*"),
        );
    let space = EndpointSpace::new().bind(Exact::new("urn:example:link-remove"), inert);
    let report = check(&kernel(space)).unwrap_err();
    assert_caught(
        &report,
        Check::RequiresVerb,
        "declares requires `urn:cap:fs:write:*` but no verb",
    );
}

#[test]
fn a_declared_cacheable_composite_that_recomputes_is_reported() {
    let report = report_of(three_of_them());
    assert!(
        against(&report, "composite")
            .iter()
            .all(|f| f.check != Check::Cacheable),
        "undeclared, the composite is invisible:\n{}",
        report.to_text()
    );
    let report = Suite::new()
        .cacheable("composite")
        .run_blocking(&kernel(three_of_them()));
    assert!(
        against(&report, "composite").iter().any(|f| f.check == Check::Cacheable
            && f.detail.contains("kernel returned it uncacheable")),
        "{}",
        report.to_text()
    );
    assert!(report.to_text().contains("declared cacheable: composite"));
    assert!(
        against(&report, "clock")
            .iter()
            .all(|f| f.check != Check::Cacheable),
        "{}",
        report.to_text()
    );
}

#[test]
fn the_builtins_report_their_untyped_inputs() {
    let root = EndpointSpace::new()
        .bind(Exact::new("urn:example:to-upper"), builtins::to_upper())
        .bind(Exact::new("urn:example:reverse-list"), builtins::reverse_list())
        .bind(
            UriTemplate::parse("urn:example:echo/{message}").unwrap(),
            builtins::echo(),
        );
    let report = check(&Kernel::new(Arc::new(root))).unwrap_err();
    assert_eq!(report.endpoints, 3, "{}", report.to_text());
    assert_eq!(report.actions, 3, "{}", report.to_text());
    let untyped = of(&report, Check::ArgSpecs);
    assert_eq!(untyped.len(), 3, "{}", report.to_text());
    assert!(untyped.iter().all(|f| f.detail.contains("has no class")));
    assert_eq!(
        report.walked,
        vec!["to-upper".to_string(), "reverse-list".into(), "echo".into()]
    );
    assert_eq!(report.probed.len(), 3, "{}", report.to_text());
}

#[test]
fn a_walk_of_an_empty_space_reaches_nothing_and_says_so() {
    let report = Suite::new().run_blocking(&kernel(EndpointSpace::new()));
    assert!(report.is_clean(), "{}", report.to_text());
    assert_eq!(report.endpoints, 0);
    assert!(report.walked.is_empty());
    assert!(report.to_text().contains("probed: nothing"), "{}", report.to_text());
}
