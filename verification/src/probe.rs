//! The invoking checks of one action, as a state machine the host drives: the
//! probe says which resolution it needs next, the host performs it against the
//! kernel and hands the answer back, and once nothing more is needed the probe
//! judges the evidence — `ENFORCED`, `AUTHORITY`, `SKOLEM-RDF`, `VOCABULARY`,
//! `CACHEABLE`, `PIPELINE` and `OUTPUTS`, in that order.
use crate::checks::Check;
use crate::model::{cacheable_verb, mutating_verb, ActionSpec, ArgSpec, InputSource, Verb};
use crate::pairs::{find, first_value, lookup, put, sorted_pairs};
use crate::model::verb_variant;
use crate::rdf::{
    bare, bare_media_type, defined_among, is_defined_among, is_rdf_face, parse_bare, rdf_faces,
    vocab_ns, blank_nodes, terms, Triple, rdf_graph, reads_as, part_at, node_at, shows_blank,
    blank_parts, shows_triple,
    shape_uses_term, shape_has_blank, lemma_shape_reads, blank_label, has_blank, uses_term,
    syntax_message_head,
};
use crate::report::{
    fview, fviews, push_finding, push_unprobed, pview, pviews, uviews, Finding, FindingView,
    Probed, ProbedView, Unprobed, UnprobedView,
};
use crate::statics::{quote_all, quoted};
use crate::suite::{args_for, listed, minimal_arg, runs, sample, sample_value, Suite};
use crate::text::{
    append, ascending, decimal, decimal_string, decimal_u64, is_listed, join, joined, owned, same,
    starts_with, views,
};
use vstd::prelude::*;

verus! {

/// How long a served result stays cacheable, as the kernel reports it (the
/// effective expiry: the least cacheable of the result's own and its
/// dependencies').
#[derive(Clone, Copy, Debug, PartialEq, Eq, Structural)]
pub enum Expiry {
    /// Never cached.
    Always,
    /// Cached until an absolute deadline, in milliseconds since the Unix epoch.
    At(u64),
    /// Permanently cacheable.
    Never,
}

/// What a resolution served.
#[derive(Clone, Debug)]
pub struct Served {
    /// The media type, as the representation type names it.
    pub media_type: String,
    /// The representation type in its canonical form: the media type followed by
    /// its sorted `;key=value` parameters.
    pub type_text: String,
    /// The bytes served.
    pub bytes: Vec<u8>,
    /// The effective expiry.
    pub expiry: Expiry,
    /// Whether the result carries at least one golden thread (a dependency that
    /// can cut it from the cache).
    pub threaded: bool,
}

/// Why a resolution failed: the two refusals the checks tell apart, and every
/// other error by the text the kernel prints for it.
#[derive(Clone, Debug, PartialEq, Eq)]
pub enum Failure {
    /// The capability did not authorize the operation; the denial's message.
    Denied(String),
    /// A required argument was absent; its name.
    MissingArgument(String),
    /// Any other error, as the kernel prints it.
    Other(String),
}

/// The text the kernel prints for a failure.
pub open spec fn failure_text(f: Failure) -> Seq<char> {
    match f {
        Failure::Denied(m) => "denied: "@ + m@,
        Failure::MissingArgument(n) => "missing required argument `"@ + n@ + "`"@,
        Failure::Other(t) => t@,
    }
}

/// One event of a traced resolution: whether it is the root request's own, and
/// whether it was answered from the cache.
#[derive(Clone, Copy, Debug, PartialEq, Eq, Structural)]
pub struct Event {
    /// Whether the event belongs to the root request (it has no parent).
    pub root: bool,
    /// Whether the event was a cache hit.
    pub cache_hit: bool,
}

/// A resolution under root with its trace.
#[derive(Debug)]
pub struct Traced {
    /// What the resolution gave.
    pub outcome: Result<Served, Failure>,
    /// What the trace recorded.
    pub events: Vec<Event>,
}

/// Whether the trace records a cache hit on the root request.
pub open spec fn root_hit(events: Seq<Event>) -> bool {
    exists|i: int| 0 <= i < events.len() && #[trigger] events[i].root && events[i].cache_hit
}

/// Whether the trace records a cache hit on the root request.
pub fn traced_hit(events: &Vec<Event>) -> (r: bool)
    ensures
        r == root_hit(events@),
{
    let mut i: usize = 0;
    while i < events.len()
        invariant
            i <= events@.len(),
            forall|j: int| 0 <= j < i ==> !(#[trigger] events@[j].root && events@[j].cache_hit),
        decreases events@.len() - i,
    {
        if events[i].root && events[i].cache_hit {
            return true;
        }
        i = i + 1;
    }
    false
}

/// A resolution the probe needs.
#[derive(Clone, Copy, Debug, PartialEq, Eq, Structural)]
pub enum Call {
    /// Issue the request with its minimal arguments under a capability holding no
    /// grants (one resolution answers both `ENFORCED` and `AUTHORITY`).
    NoGrants,
    /// Issue the request under root with `as=` set to the face at this index of
    /// [`Probe::faces`] (kept when a fixture already sets `as`).
    Face(usize),
    /// Issue the request with its minimal arguments under root, traced.
    Minimal,
    /// The same again: the second identical resolution `CACHEABLE` measures.
    Again,
    /// Ask the kernel, without resolving, whether the minimal request is now
    /// cached under root.
    IsCached,
    /// Issue the request under root with `content` supplied (kept when the minimal
    /// arguments already carry it): the pipeline probe.
    Fire,
}

/// What the host hands back for a call.
#[derive(Debug)]
pub enum Answer {
    /// The outcome of an untraced resolution.
    Resolved(Result<Served, Failure>),
    /// The outcome of a traced resolution, with its trace.
    Traced(Traced),
    /// Whether the request is cached.
    Cached(bool),
}

/// Everything the host has answered so far.
#[derive(Debug)]
pub struct Evidence {
    /// The resolution under no grants.
    pub no_grants: Option<Result<Served, Failure>>,
    /// The per-face resolutions, in face order.
    pub faces: Vec<Result<Served, Failure>>,
    /// The first minimal resolution under root.
    pub minimal: Option<Traced>,
    /// The second one.
    pub again: Option<Traced>,
    /// Whether the request was cached after the second one.
    pub cached: Option<bool>,
    /// The pipeline probe's firing.
    pub fired: Option<Result<Served, Failure>>,
}

/// One action under examination: what the suite selected for it and the inputs
/// it is resolved with.
#[derive(Clone, Debug)]
pub struct Probe {
    /// The endpoint's description id.
    pub id: String,
    /// The action's verb.
    pub verb: Verb,
    /// The IRI the action is resolved at.
    pub target: String,
    /// The capability scopes the action declares.
    pub requires: Vec<String>,
    /// The representation types the action declares.
    pub outputs: Vec<String>,
    /// The bare media types of the declared outputs that are RDF faces, in order.
    pub faces: Vec<String>,
    /// The minimal by-value arguments, sorted by name.
    pub args: Vec<(String, String)>,
    /// The value the pipeline probe supplies for `content`, when the action
    /// declares a by-value `content` input.
    pub content: Option<String>,
    /// Whether `ENFORCED` runs for it.
    pub enforced: bool,
    /// Whether `AUTHORITY` runs for it.
    pub authority: bool,
    /// Whether `SKOLEM-RDF` runs for it.
    pub skolem: bool,
    /// Whether `VOCABULARY` runs for it.
    pub vocabulary: bool,
    /// Whether `CACHEABLE` runs for it.
    pub cacheable: bool,
    /// Whether `PIPELINE` runs for it.
    pub pipeline: bool,
    /// Whether `OUTPUTS` runs for it.
    pub outputs_check: bool,
    /// Whether the endpoint was declared cacheable.
    pub declared_cacheable: bool,
    /// Whether the endpoint was declared live.
    pub declared_live: bool,
    /// Whether the endpoint was declared pure.
    pub declared_pure: bool,
    /// The namespaces registered as the module's own.
    pub namespaces: Vec<String>,
}

/// The bare RDF faces among `outputs`, in order.
pub open spec fn faces_of(outputs: Seq<String>) -> Seq<Seq<char>>
    decreases outputs.len(),
{
    if outputs.len() == 0 {
        Seq::empty()
    } else {
        faces_of(outputs.drop_last()) + if rdf_faces().contains(bare(outputs.last()@)) {
            seq![bare(outputs.last()@)]
        } else {
            Seq::empty()
        }
    }
}

/// The first by-value input named `content`, if any.
pub open spec fn content_input(inputs: Seq<ArgSpec>) -> Option<ArgSpec>
    decreases inputs.len(),
{
    if inputs.len() == 0 {
        None
    } else if inputs[0].name@ == "content"@ && inputs[0].source == InputSource::Argument {
        Some(inputs[0])
    } else {
        content_input(inputs.drop_first())
    }
}

/// An optional string as plain characters.
pub open spec fn opt_view(o: Option<String>) -> Option<Seq<char>> {
    match o {
        Some(s) => Some(s@),
        None => None,
    }
}

/// Whether `p` is the probe of the action `spec` of the endpoint `id`, resolved
/// at `target`, under the suite `s`.
pub open spec fn planned(s: Suite, id: Seq<char>, target: Seq<char>, spec: ActionSpec, p: Probe) -> bool {
    &&& p.id@ == id
    &&& p.verb == spec.verb
    &&& p.target@ == target
    &&& p.requires@ == spec.requires@
    &&& p.outputs@ == spec.outputs@
    &&& views(p.faces@) == faces_of(spec.outputs@)
    &&& sorted_pairs(p.args@)
    &&& forall|n: Seq<char>| #[trigger] lookup(p.args@, n) == minimal_arg(s, id, spec, n)
    &&& opt_view(p.content) == match content_input(spec.inputs@) {
        Some(a) => Some(sample(a)),
        None => None,
    }
    &&& p.enforced == runs(s, id, Check::Enforced)
    &&& p.authority == runs(s, id, Check::Authority)
    &&& p.skolem == runs(s, id, Check::SkolemRdf)
    &&& p.vocabulary == runs(s, id, Check::Vocabulary)
    &&& p.cacheable == runs(s, id, Check::Cacheable)
    &&& p.pipeline == runs(s, id, Check::Pipeline)
    &&& p.outputs_check == runs(s, id, Check::Outputs)
    &&& p.declared_cacheable == listed(s.cacheable@, id)
    &&& p.declared_live == listed(s.live@, id)
    &&& p.declared_pure == listed(s.pure@, id)
    &&& p.namespaces@ == s.namespaces@
}

/// A copy of a list of strings.
pub fn copy_all(v: &Vec<String>) -> (r: Vec<String>)
    ensures
        r@ == v@,
{
    let mut r: Vec<String> = Vec::new();
    let mut i: usize = 0;
    while i < v.len()
        invariant
            i <= v@.len(),
            r@ == v@.take(i as int),
        decreases v@.len() - i,
    {
        r.push(v[i].clone());
        i = i + 1;
        assert(r@ =~= v@.take(i as int));
    }
    assert(v@.take(v@.len() as int) =~= v@);
    r
}

/// The bare RDF faces among `outputs`, in order.
fn faces_among(outputs: &Vec<String>) -> (r: Vec<String>)
    ensures
        views(r@) == faces_of(outputs@),
{
    let mut r: Vec<String> = Vec::new();
    let mut i: usize = 0;
    while i < outputs.len()
        invariant
            i <= outputs@.len(),
            views(r@) == faces_of(outputs@.take(i as int)),
        decreases outputs@.len() - i,
    {
        let ghost before = views(r@);
        proof {
            assert(outputs@.take(i + 1).drop_last() =~= outputs@.take(i as int));
            assert(outputs@.take(i + 1).last() == outputs@[i as int]);
        }
        if is_rdf_face(outputs[i].as_str()) {
            let b = bare_media_type(outputs[i].as_str());
            r.push(b);
            assert(views(r@) =~= before + seq![bare(outputs@[i as int]@)]);
        } else {
            assert(views(r@) =~= before + Seq::<Seq<char>>::empty());
        }
        i = i + 1;
    }
    assert(outputs@.take(outputs@.len() as int) =~= outputs@);
    r
}

/// The value the pipeline probe supplies for `content`.
fn content_value(inputs: &Vec<ArgSpec>) -> (r: Option<String>)
    ensures
        opt_view(r) == match content_input(inputs@) {
            Some(a) => Some(sample(a)),
            None => None,
        },
{
    let mut i: usize = 0;
    assert(inputs@.skip(0) =~= inputs@);
    while i < inputs.len()
        invariant
            i <= inputs@.len(),
            content_input(inputs@) == content_input(inputs@.skip(i as int)),
        decreases inputs@.len() - i,
    {
        proof {
            assert(inputs@.skip(i as int)[0] == inputs@[i as int]);
            assert(inputs@.skip(i as int).drop_first() =~= inputs@.skip(i + 1));
        }
        if inputs[i].source == InputSource::Argument && same(inputs[i].name.as_str(), "content") {
            return Some(sample_value(&inputs[i]));
        }
        i = i + 1;
    }
    None
}

impl Probe {
    /// The probe of the action `spec` of the endpoint `id`, resolved at `target`.
    pub fn plan(suite: &Suite, id: &str, target: &str, spec: &ActionSpec) -> (r: Probe)
        ensures
            planned(*suite, id@, target@, *spec, r),
    {
        Probe {
            id: owned(id),
            verb: spec.verb,
            target: owned(target),
            requires: copy_all(&spec.requires),
            outputs: copy_all(&spec.outputs),
            faces: faces_among(&spec.outputs),
            args: args_for(suite, id, spec),
            content: content_value(&spec.inputs),
            enforced: suite.runs(id, Check::Enforced),
            authority: suite.runs(id, Check::Authority),
            skolem: suite.runs(id, Check::SkolemRdf),
            vocabulary: suite.runs(id, Check::Vocabulary),
            cacheable: suite.runs(id, Check::Cacheable),
            pipeline: suite.runs(id, Check::Pipeline),
            outputs_check: suite.runs(id, Check::Outputs),
            declared_cacheable: is_listed(&suite.cacheable, id),
            declared_live: is_listed(&suite.live, id),
            declared_pure: is_listed(&suite.pure, id),
            namespaces: copy_all(&suite.namespaces),
        }
    }
}

// ----- which resolution comes next ------------------------------------------------

/// Whether the probe resolves the action under no grants: `ENFORCED` runs, or
/// `AUTHORITY` runs on a mutating action that declares no scope.
pub open spec fn asks_no_grants(p: Probe) -> bool {
    p.enforced || (p.authority && mutating_verb(p.verb) && p.requires@.len() == 0)
}

/// Whether either graph check runs.
pub open spec fn graphs(p: Probe) -> bool {
    p.skolem || p.vocabulary
}

/// Whether the action declares several outputs, so a face is picked with `as=`.
pub open spec fn several(p: Probe) -> bool {
    p.outputs@.len() > 1
}

/// Whether `CACHEABLE` looks at the action (it runs, on a cacheable verb).
pub open spec fn caching(p: Probe) -> bool {
    p.cacheable && cacheable_verb(p.verb)
}

/// Whether `CACHEABLE` resolves a second time: the first resolution served
/// something cacheable and the endpoint was not declared live.
pub open spec fn wants_again(p: Probe, e: Evidence) -> bool {
    caching(p) && match e.minimal {
        Some(t) => match t.outcome {
            Ok(s) => s.expiry != Expiry::Always && !p.declared_live,
            Err(_) => false,
        },
        None => false,
    }
}

/// Whether `CACHEABLE` asks if the request is cached: the second resolution
/// served something.
pub open spec fn wants_cached(p: Probe, e: Evidence) -> bool {
    wants_again(p, e) && match e.again {
        Some(t) => t.outcome is Ok,
        None => false,
    }
}

/// Whether the pipeline probe fires the action: `PIPELINE` runs and the action
/// declares a by-value `content`.
pub open spec fn fires(p: Probe) -> bool {
    p.pipeline && p.content is Some
}

/// The resolution the probe needs next, in the order the checks ask for them;
/// `None` once every check has what it reads.
pub open spec fn next_call(p: Probe, e: Evidence) -> Option<Call> {
    if asks_no_grants(p) && e.no_grants is None {
        Some(Call::NoGrants)
    } else if graphs(p) && several(p) && e.faces@.len() < p.faces@.len() {
        Some(Call::Face(e.faces@.len() as usize))
    } else if graphs(p) && !several(p) && p.faces@.len() > 0 && e.minimal is None {
        Some(Call::Minimal)
    } else if caching(p) && e.minimal is None {
        Some(Call::Minimal)
    } else if wants_again(p, e) && e.again is None {
        Some(Call::Again)
    } else if wants_cached(p, e) && e.cached is None {
        Some(Call::IsCached)
    } else if fires(p) && e.fired is None {
        Some(Call::Fire)
    } else if p.outputs_check && !mutating_verb(p.verb) && e.minimal is None {
        Some(Call::Minimal)
    } else {
        None
    }
}

/// Whether an answer is of the kind a call asks for.
pub open spec fn fits(c: Call, a: Answer) -> bool {
    match c {
        Call::NoGrants | Call::Face(_) | Call::Fire => a is Resolved,
        Call::Minimal | Call::Again => a is Traced,
        Call::IsCached => a is Cached,
    }
}

/// How many resolutions the evidence still lacks, at most.
pub open spec fn outstanding(p: Probe, e: Evidence) -> nat {
    (if e.no_grants is None { 1nat } else { 0nat }) + (if e.faces@.len() < p.faces@.len() {
        (p.faces@.len() - e.faces@.len()) as nat
    } else {
        0nat
    }) + (if e.minimal is None { 1nat } else { 0nat }) + (if e.again is None { 1nat } else { 0nat })
        + (if e.cached is None { 1nat } else { 0nat }) + (if e.fired is None { 1nat } else { 0nat })
}

impl Evidence {
    /// Nothing answered yet.
    pub fn new() -> (r: Evidence)
        ensures
            r.no_grants is None,
            r.faces@.len() == 0,
            r.minimal is None,
            r.again is None,
            r.cached is None,
            r.fired is None,
    {
        Evidence {
            no_grants: None,
            faces: Vec::new(),
            minimal: None,
            again: None,
            cached: None,
            fired: None,
        }
    }

    /// Records the answer to a call; an answer of another kind than the call asks
    /// for is ignored.
    pub fn record(&mut self, call: Call, answer: Answer)
        ensures
            fits(call, answer) ==> match (call, answer) {
                (Call::NoGrants, Answer::Resolved(o)) => *final(self) == (Evidence {
                    no_grants: Some(o),
                    ..*old(self)
                }),
                (Call::Face(_), Answer::Resolved(o)) => final(self).faces@ == old(self).faces@.push(o)
                    && *final(self) == (Evidence { faces: final(self).faces, ..*old(self) }),
                (Call::Fire, Answer::Resolved(o)) => *final(self) == (Evidence {
                    fired: Some(o),
                    ..*old(self)
                }),
                (Call::Minimal, Answer::Traced(t)) => *final(self) == (Evidence {
                    minimal: Some(t),
                    ..*old(self)
                }),
                (Call::Again, Answer::Traced(t)) => *final(self) == (Evidence {
                    again: Some(t),
                    ..*old(self)
                }),
                (Call::IsCached, Answer::Cached(b)) => *final(self) == (Evidence {
                    cached: Some(b),
                    ..*old(self)
                }),
                _ => false,
            },
            !fits(call, answer) ==> *final(self) == *old(self),
    {
        match (call, answer) {
            (Call::NoGrants, Answer::Resolved(o)) => {
                self.no_grants = Some(o);
            },
            (Call::Face(_), Answer::Resolved(o)) => {
                self.faces.push(o);
            },
            (Call::Fire, Answer::Resolved(o)) => {
                self.fired = Some(o);
            },
            (Call::Minimal, Answer::Traced(t)) => {
                self.minimal = Some(t);
            },
            (Call::Again, Answer::Traced(t)) => {
                self.again = Some(t);
            },
            (Call::IsCached, Answer::Cached(b)) => {
                self.cached = Some(b);
            },
            _ => {},
        }
    }
}

impl Probe {
    /// The resolution this probe needs next, or `None` once the evidence is
    /// complete.
    pub fn next(&self, e: &Evidence) -> (r: Option<Call>)
        ensures
            r == next_call(*self, *e),
    {
        let mutating = self.verb.is_mutating();
        let graph = self.skolem || self.vocabulary;
        let several = self.outputs.len() > 1;
        let caching = self.cacheable && self.verb.is_cacheable();
        let wants_again = caching && match &e.minimal {
            Some(t) => match &t.outcome {
                Ok(s) => s.expiry != Expiry::Always && !self.declared_live,
                Err(_) => false,
            },
            None => false,
        };
        let wants_cached = wants_again && match &e.again {
            Some(t) => t.outcome.is_ok(),
            None => false,
        };
        if (self.enforced || (self.authority && mutating && self.requires.len() == 0))
            && e.no_grants.is_none() {
            Some(Call::NoGrants)
        } else if graph && several && e.faces.len() < self.faces.len() {
            Some(Call::Face(e.faces.len()))
        } else if graph && !several && self.faces.len() > 0 && e.minimal.is_none() {
            Some(Call::Minimal)
        } else if caching && e.minimal.is_none() {
            Some(Call::Minimal)
        } else if wants_again && e.again.is_none() {
            Some(Call::Again)
        } else if wants_cached && e.cached.is_none() {
            Some(Call::IsCached)
        } else if self.pipeline && self.content.is_some() && e.fired.is_none() {
            Some(Call::Fire)
        } else if self.outputs_check && !mutating && e.minimal.is_none() {
            Some(Call::Minimal)
        } else {
            None
        }
    }

    /// The by-value arguments a call is issued with: the minimal ones, plus `as`
    /// for a face and `content` for the pipeline probe where the minimal ones do
    /// not already carry them; sorted by name.
    pub fn arguments(&self, call: Call) -> (r: Vec<(String, String)>)
        requires
            sorted_pairs(self.args@),
            call matches Call::Face(k) ==> k < self.faces@.len(),
        ensures
            sorted_pairs(r@),
            forall|n: Seq<char>|
                #![trigger lookup(r@, n)]
                lookup(r@, n) == match call {
                    Call::Face(k) => if n == "as"@ && lookup(self.args@, n) is None {
                        Some(self.faces@[k as int]@)
                    } else {
                        lookup(self.args@, n)
                    },
                    Call::Fire => if n == "content"@ && lookup(self.args@, n) is None
                        && self.content is Some {
                        Some(self.content->Some_0@)
                    } else {
                        lookup(self.args@, n)
                    },
                    _ => lookup(self.args@, n),
                },
    {
        let mut args: Vec<(String, String)> = Vec::new();
        let mut i: usize = 0;
        assert(crate::pairs::names(args@) =~= Seq::<Seq<char>>::empty());
        assert(self.args@.take(0) =~= Seq::<(String, String)>::empty());
        while i < self.args.len()
            invariant
                i <= self.args@.len(),
                sorted_pairs(self.args@),
                sorted_pairs(args@),
                forall|n: Seq<char>| #[trigger] lookup(args@, n) == lookup(self.args@.take(i as int), n),
            decreases self.args@.len() - i,
        {
            proof {
                crate::pairs::lemma_lookup_prefix(self.args@, i as int, Seq::empty());
            }
            put(&mut args, self.args[i].0.clone(), self.args[i].1.clone());
            proof {
                assert forall|n: Seq<char>| #[trigger] lookup(args@, n) == lookup(
                    self.args@.take(i + 1),
                    n,
                ) by {
                    crate::pairs::lemma_lookup_prefix(self.args@, i as int, n);
                }
            }
            i = i + 1;
        }
        assert(self.args@.take(self.args@.len() as int) =~= self.args@);
        match call {
            Call::Face(k) => {
                if crate::pairs::find(&args, "as").is_none() {
                    proof {
                        crate::pairs::lemma_first_is_lookup(args@, "as"@);
                    }
                    put(&mut args, owned("as"), self.faces[k].clone());
                } else {
                    proof {
                        crate::pairs::lemma_first_is_lookup(args@, "as"@);
                    }
                }
            },
            Call::Fire => {
                match &self.content {
                    Some(c) => {
                        if crate::pairs::find(&args, "content").is_none() {
                            proof {
                                crate::pairs::lemma_first_is_lookup(args@, "content"@);
                            }
                            put(&mut args, owned("content"), c.clone());
                        } else {
                            proof {
                                crate::pairs::lemma_first_is_lookup(args@, "content"@);
                            }
                        }
                    },
                    None => {},
                }
            },
            _ => {},
        }
        args
    }
}

// ----- laws of the call sequence ---------------------------------------------------

/// Every answer to the call the probe asked for lowers the count of resolutions it
/// still lacks, so the host's loop ends; and the probe never asks for a resolution
/// it already holds.
pub proof fn lemma_probe_progress(p: Probe, e: Evidence, c: Call, a: Answer, after: Evidence)
    requires
        p.faces@.len() <= usize::MAX,
        next_call(p, e) == Some(c),
        fits(c, a),
        match (c, a) {
            (Call::NoGrants, Answer::Resolved(o)) => after == (Evidence { no_grants: Some(o), ..e }),
            (Call::Face(_), Answer::Resolved(o)) => after.faces@ == e.faces@.push(o) && after == (
            Evidence { faces: after.faces, ..e }),
            (Call::Fire, Answer::Resolved(o)) => after == (Evidence { fired: Some(o), ..e }),
            (Call::Minimal, Answer::Traced(t)) => after == (Evidence { minimal: Some(t), ..e }),
            (Call::Again, Answer::Traced(t)) => after == (Evidence { again: Some(t), ..e }),
            (Call::IsCached, Answer::Cached(b)) => after == (Evidence { cached: Some(b), ..e }),
            _ => false,
        },
    ensures
        outstanding(p, after) < outstanding(p, e),
        next_call(p, after) != Some(c),
{
}

/// What the probe does to a mutating action (`Sink`, `Delete`): it never resolves
/// it a second time or asks whether it is cached, resolves it under root with its
/// minimal inputs only for the graph checks on its single declared RDF output, and
/// fires it with `content` only for the pipeline probe.
pub proof fn lemma_mutating_footprint(p: Probe, e: Evidence)
    requires
        mutating_verb(p.verb),
    ensures
        next_call(p, e) != Some(Call::Again),
        next_call(p, e) != Some(Call::IsCached),
        next_call(p, e) == Some(Call::Minimal) ==> graphs(p) && !several(p) && p.faces@.len() > 0,
        next_call(p, e) == Some(Call::Fire) ==> fires(p),
{
}


// ----- judging the evidence -----------------------------------------------------------

/// What a parsed RDF face holds, as the graph checks read it.
#[derive(Debug)]
pub struct Reading {
    /// How many triples the face parsed to.
    pub triples: usize,
    /// Its blank nodes, each once, in sorted order.
    pub blanks: Vec<String>,
    /// The vocabulary terms it uses, each once, in sorted order.
    pub terms: Vec<String>,
}

/// What the invoking checks made of one action.
#[derive(Debug)]
pub struct Verdict {
    /// The findings, in the order the checks made them.
    pub findings: Vec<Finding>,
    /// What a check could not observe.
    pub unprobed: Vec<Unprobed>,
    /// The RDF faces the graph checks parsed.
    pub probed: Vec<Probed>,
    /// Whether the failure of a minimal resolution has been reported (it is
    /// reported once per action, under the first check that needed it).
    pub reported: bool,
    /// Whether `CACHEABLE` ran for the action at all.
    pub cacheable_ran: bool,
    /// Whether a cacheable result made the golden-thread rule, which `pure`
    /// exempts from, apply.
    pub pure_consulted: bool,
    /// Whether `CACHEABLE` could not resolve the action.
    pub unresolved: bool,
    /// Whether any RDF face was parsed.
    pub faces_probed: bool,
    /// The registered namespaces that accounted for a term.
    pub namespaces_used: Vec<String>,
    /// What the action served, whatever its media type, as a `probed` line.
    pub served: Option<Probed>,
}

/// A finding of this action.
pub open spec fn fv(p: Probe, check: Check, detail: Seq<char>) -> FindingView {
    (p.id@, Some(p.verb), check, detail)
}

/// An unprobed line of this action.
pub open spec fn uv(p: Probe, check: Check, reason: Seq<char>) -> UnprobedView {
    (p.id@, p.verb, check, reason)
}

/// The detail for a minimal resolution that failed.
pub open spec fn failure_detail(p: Probe, f: Failure) -> Seq<char> {
    "did not resolve with the minimal inputs its ArgSpecs allow ("@ + failure_text(f)
        + "); supply a `Fixture::new(\""@ + p.id@ + "\", Verb::"@ + verb_variant(p.verb)
        + ")` with inputs that work, or opt out with a reason"@
}

// ENFORCED

/// The detail for a declared scope that did not stop an ungranted caller.
pub open spec fn unenforced_detail(scopes: Seq<Seq<char>>) -> Seq<char> {
    "declares requires "@ + quoted(scopes)
        + " but resolved under a capability holding no grants: declared is not enforced"@
}

/// The detail for a declared scope refused with something other than `Denied`.
pub open spec fn untyped_refusal_detail(scopes: Seq<Seq<char>>, f: Failure) -> Seq<char> {
    "declares requires "@ + quoted(scopes) + "; under no grants expected a typed `Denied`, got `"@
        + failure_text(f) + "`"@
}

/// The detail for a refusal no declared scope accounts for.
pub open spec fn over_offer_detail(msg: Seq<char>) -> Seq<char> {
    "declares no capability but refused with `Denied` under no grants ("@ + msg
        + "): an enforced scope the manifold does not declare — it over-offers"@
}

/// What `ENFORCED` finds: a declared scope must refuse an ungranted caller with a
/// typed `Denied`, and an undeclared one must not refuse it.
pub open spec fn enforced_findings(p: Probe, e: Evidence) -> Seq<FindingView> {
    if !p.enforced {
        Seq::empty()
    } else {
        match e.no_grants {
            None => Seq::empty(),
            Some(o) => if p.requires@.len() > 0 {
                match o {
                    Ok(_) => seq![fv(p, Check::Enforced, unenforced_detail(views(p.requires@)))],
                    Err(Failure::Denied(_)) => Seq::empty(),
                    Err(f) => seq![
                        fv(p, Check::Enforced, untyped_refusal_detail(views(p.requires@), f)),
                    ],
                }
            } else {
                match o {
                    Err(Failure::Denied(m)) => seq![fv(p, Check::Enforced, over_offer_detail(m@))],
                    _ => Seq::empty(),
                }
            },
        }
    }
}

// AUTHORITY

/// The detail for a write nothing gates.
pub open spec fn open_write_detail() -> Seq<char> {
    "declares no `requires` and mutated under a capability holding no grants: authority over this write cannot be withheld from anyone who can reach the endpoint, so no caller can be given read without also getting write. Declare the scope it should require (`.requires(\"urn:cap:…\")` on the action, enforced by the kernel), or waive it with the reason it is deliberately open"@
}

/// The reason an open write was not observed.
pub open spec fn unobserved_write_reason(f: Failure) -> Seq<char> {
    "declares no `requires` and did not resolve under no grants ("@ + failure_text(f)
        + "), so whether an ungranted caller can mutate through it was not observed: supply a `Fixture` with inputs that work, or say why it is open"@
}

/// Whether `AUTHORITY` looks at the action: it runs, on a mutating action that
/// declares no scope.
pub open spec fn authority_applies(p: Probe) -> bool {
    p.authority && mutating_verb(p.verb) && p.requires@.len() == 0
}

/// What `AUTHORITY` finds: a mutating action declaring no scope that resolved
/// under no grants.
pub open spec fn authority_findings(p: Probe, e: Evidence) -> Seq<FindingView> {
    if authority_applies(p) && e.no_grants matches Some(Ok(_)) {
        seq![fv(p, Check::Authority, open_write_detail())]
    } else {
        Seq::empty()
    }
}

/// What `AUTHORITY` could not observe: the resolution under no grants failed for
/// a reason other than a refusal.
pub open spec fn authority_unprobed(p: Probe, e: Evidence) -> Seq<UnprobedView> {
    if authority_applies(p) {
        match e.no_grants {
            Some(Err(Failure::Denied(_))) => Seq::empty(),
            Some(Err(f)) => seq![uv(p, Check::Authority, unobserved_write_reason(f))],
            _ => Seq::empty(),
        }
    } else {
        Seq::empty()
    }
}

// SKOLEM-RDF and VOCABULARY

/// The check a face's own failures are reported under: `SKOLEM-RDF` when it runs,
/// `VOCABULARY` otherwise.
pub open spec fn face_check(p: Probe) -> Check {
    if p.skolem {
        Check::SkolemRdf
    } else {
        Check::Vocabulary
    }
}

/// What the face at index `k` resolved to, if it was resolved.
pub open spec fn face_outcome(p: Probe, e: Evidence, k: int) -> Option<Result<Served, Failure>> {
    if several(p) {
        if 0 <= k < e.faces@.len() {
            Some(e.faces@[k])
        } else {
            None
        }
    } else {
        match e.minimal {
            Some(t) => Some(t.outcome),
            None => None,
        }
    }
}

/// The reading of the face at index `k`, if there is one.
pub open spec fn reading_at(rd: Seq<Option<Result<Reading, String>>>, k: int) -> Option<
    Result<Reading, String>,
> {
    if 0 <= k < rd.len() {
        rd[k]
    } else {
        None
    }
}

/// The detail for a face the action does not serve.
pub open spec fn unserved_detail(face: Seq<char>, got: Seq<char>) -> Seq<char> {
    "asked for the `"@ + face + "` face and got `"@ + got
        + "`: a declared output the action does not serve"@
}

/// The detail for a face that does not parse.
pub open spec fn unparsed_detail(face: Seq<char>, msg: Seq<char>) -> Seq<char> {
    "the `"@ + face + "` face "@ + msg
}

/// The detail for a face with blank nodes: their count and the first three.
pub open spec fn blank_detail(face: Seq<char>, blanks: Seq<Seq<char>>) -> Seq<char> {
    "the `"@ + face + "` face has "@ + decimal(blanks.len()) + " blank node(s) ("@ + joined(
        blanks.take(if blanks.len() > 3 { 3 } else { blanks.len() as int }),
        ", "@,
    ) + (if blanks.len() > 3 { ", …"@ } else { Seq::empty() })
        + "): skolemize — mint a stable IRI per node (`urn:ikigai:endpoint:{id}:…`, `urn:event:{uid}`), never a counter"@
}

/// The detail for a term nothing defines.
pub open spec fn invented_detail(face: Seq<char>, term: Seq<char>) -> Seq<char> {
    "the `"@ + face + "` face uses `"@ + term
        + "`, which ikigai-vocab does not define and no well-known or registered namespace covers: an invented term with no definition (define it in the vocabulary, or `Suite::namespace` one the module serves)"@
}

/// The first of `namespaces` that `term` lies under.
pub open spec fn first_prefix(namespaces: Seq<Seq<char>>, term: Seq<char>) -> Option<Seq<char>>
    decreases namespaces.len(),
{
    if namespaces.len() == 0 {
        None
    } else if namespaces[0].is_prefix_of(term) {
        Some(namespaces[0])
    } else {
        first_prefix(namespaces.drop_first(), term)
    }
}

/// The registered namespace that accounts for a term nothing else defines: the
/// first one it lies under. None accounts for a term under the shared
/// vocabulary's namespace — only the vocabulary itself does.
pub open spec fn covering(term: Seq<char>, namespaces: Seq<Seq<char>>) -> Option<Seq<char>> {
    if vocab_ns().is_prefix_of(term) {
        None
    } else {
        first_prefix(namespaces, term)
    }
}

/// Whether a term is accounted for by nothing: not defined without the
/// registered namespaces, and under none of them.
pub open spec fn invented(term: Seq<char>, namespaces: Seq<Seq<char>>, vocabulary: Seq<Seq<char>>) -> bool {
    !defined_among(term, Seq::empty(), vocabulary) && covering(term, namespaces) is None
}

/// What `VOCABULARY` finds in the terms of one face.
pub open spec fn vocab_findings(
    p: Probe,
    face: Seq<char>,
    terms: Seq<Seq<char>>,
    vocabulary: Seq<Seq<char>>,
) -> Seq<FindingView>
    decreases terms.len(),
{
    if terms.len() == 0 {
        Seq::empty()
    } else {
        vocab_findings(p, face, terms.drop_last(), vocabulary) + if invented(
            terms.last(),
            views(p.namespaces@),
            vocabulary,
        ) {
            seq![fv(p, Check::Vocabulary, invented_detail(face, terms.last()))]
        } else {
            Seq::empty()
        }
    }
}

/// The registered namespaces that account for some of `terms`.
pub open spec fn namespaces_covering(
    terms: Seq<Seq<char>>,
    namespaces: Seq<Seq<char>>,
    vocabulary: Seq<Seq<char>>,
) -> Set<Seq<char>>
    decreases terms.len(),
{
    if terms.len() == 0 {
        Set::empty()
    } else {
        namespaces_covering(terms.drop_last(), namespaces, vocabulary).union(
            if !defined_among(terms.last(), Seq::empty(), vocabulary) {
                match covering(terms.last(), namespaces) {
                    Some(ns) => set![ns],
                    None => Set::empty(),
                }
            } else {
                Set::empty()
            },
        )
    }
}

/// What the graph checks have made of the faces so far: findings, parsed faces,
/// whether a failure was reported, whether any face was parsed, and the
/// registered namespaces that accounted for a term.
pub type FaceState = (Seq<FindingView>, Seq<ProbedView>, bool, bool, Set<Seq<char>>);

/// The graph checks on one face.
pub open spec fn face_step(
    p: Probe,
    e: Evidence,
    rd: Seq<Option<Result<Reading, String>>>,
    vocabulary: Seq<Seq<char>>,
    k: int,
    st: FaceState,
) -> FaceState {
    let face = p.faces@[k]@;
    match face_outcome(p, e, k) {
        None => st,
        Some(Err(f)) => if st.2 {
            st
        } else {
            (st.0.push(fv(p, face_check(p), failure_detail(p, f))), st.1, true, st.3, st.4)
        },
        Some(Ok(s)) => if !rdf_faces().contains(bare(s.media_type@)) {
            (st.0.push(fv(p, face_check(p), unserved_detail(face, s.type_text@))), st.1, st.2, st.3, st.4)
        } else {
            match reading_at(rd, k) {
                None => st,
                Some(Err(m)) => (
                    st.0.push(fv(p, face_check(p), unparsed_detail(face, m@))),
                    st.1,
                    st.2,
                    st.3,
                    st.4,
                ),
                Some(Ok(r)) => (
                    st.0 + (if p.skolem && r.blanks@.len() > 0 {
                        seq![fv(p, Check::SkolemRdf, blank_detail(face, views(r.blanks@)))]
                    } else {
                        Seq::empty()
                    }) + (if p.vocabulary {
                        vocab_findings(p, face, views(r.terms@), vocabulary)
                    } else {
                        Seq::empty()
                    }),
                    st.1.push((p.id@, p.verb, face, r.triples, s.bytes@.len() as usize, true)),
                    st.2,
                    true,
                    if p.vocabulary {
                        st.4.union(namespaces_covering(views(r.terms@), views(p.namespaces@), vocabulary))
                    } else {
                        st.4
                    },
                ),
            }
        },
    }
}

/// The graph checks on the first `n` faces.
pub open spec fn faces_upto(
    p: Probe,
    e: Evidence,
    rd: Seq<Option<Result<Reading, String>>>,
    vocabulary: Seq<Seq<char>>,
    n: int,
) -> FaceState
    decreases n,
{
    if n <= 0 {
        (Seq::empty(), Seq::empty(), false, false, Set::empty())
    } else {
        face_step(p, e, rd, vocabulary, n - 1, faces_upto(p, e, rd, vocabulary, n - 1))
    }
}

/// What the graph checks make of every declared RDF face.
pub open spec fn faces_judged(
    p: Probe,
    e: Evidence,
    rd: Seq<Option<Result<Reading, String>>>,
    vocabulary: Seq<Seq<char>>,
) -> FaceState {
    if graphs(p) {
        faces_upto(p, e, rd, vocabulary, p.faces@.len() as int)
    } else {
        (Seq::empty(), Seq::empty(), false, false, Set::empty())
    }
}

// CACHEABLE

/// The detail for contradictory declarations.
pub open spec fn both_detail() -> Seq<char> {
    "declared both cacheable (`Suite::cacheable`) and live (`Suite::live`): the two are opposite promises about the same endpoint, so one of them is certainly false — keep the one the module means"@
}

/// How a cacheable expiry reads in a finding.
pub open spec fn expiry_text(x: Expiry) -> Seq<char> {
    match x {
        Expiry::Never => "`Expiry::Never` — permanently"@,
        Expiry::At(t) => "`At(Time("@ + decimal(t as nat) + "))`"@,
        Expiry::Always => "`Always`"@,
    }
}

/// The detail for a live endpoint served from the cache.
pub open spec fn live_detail(x: Expiry) -> Seq<char> {
    "declared live (`Suite::live`) but the kernel returned it cacheable ("@ + expiry_text(x)
        + "): a resource that must be read fresh is now served from the cache until something cuts a thread. Effective expiry propagates, so this is usually a dependency that became cacheable, or a `.cacheable()` added to a result that reads live state"@
}

/// The detail for a declared-cacheable endpoint returned uncacheable.
pub open spec fn uncacheable_detail() -> Seq<char> {
    "declared cacheable (`Suite::cacheable`) but the kernel returned it uncacheable: the effective expiry is the least cacheable part's, so a dependency resolved on the way is volatile — every read recomputes"@
}

/// The detail for a second resolution that failed.
pub open spec fn second_failed_detail(f: Failure) -> Seq<char> {
    "cacheable, but the second identical resolution failed: "@ + failure_text(f)
}

/// The detail for a cacheable result that is not a function of its inputs.
pub open spec fn unstable_detail() -> Seq<char> {
    "marked cacheable but two identical resolutions returned different bytes: not a function of its inputs"@
}

/// The detail for a cacheable result that was recomputed.
pub open spec fn recomputed_detail() -> Seq<char> {
    "marked cacheable but the second resolution recomputed (the trace records no cache hit): a dependency is uncacheable — effective expiry is the least cacheable part's — or the result carries `Expiry::At` on a clockless kernel"@
}

/// The detail for a cacheable result nothing can cut.
pub open spec fn threadless_detail() -> Seq<char> {
    "cacheable with an empty golden-thread set: it will be served forever with nothing to cut it. `Suite::pure(id)` if it is a pure function of its inputs; otherwise `depends_on` the thread of the state it reads"@
}

/// What the first minimal resolution gave, if it was made.
pub open spec fn first_outcome(e: Evidence) -> Option<Result<Served, Failure>> {
    match e.minimal {
        Some(t) => Some(t.outcome),
        None => None,
    }
}

/// What `CACHEABLE` finds, given whether a failure was already reported.
pub open spec fn cacheable_findings(p: Probe, e: Evidence, reported: bool) -> Seq<FindingView> {
    if !caching(p) {
        Seq::empty()
    } else {
        (if p.declared_cacheable && p.declared_live {
            seq![fv(p, Check::Cacheable, both_detail())]
        } else {
            Seq::empty()
        }) + match first_outcome(e) {
            None => Seq::empty(),
            Some(Err(f)) => if reported {
                Seq::empty()
            } else {
                seq![fv(p, Check::Cacheable, failure_detail(p, f))]
            },
            Some(Ok(first)) => if p.declared_live && first.expiry != Expiry::Always {
                seq![fv(p, Check::Cacheable, live_detail(first.expiry))]
            } else if first.expiry == Expiry::Always {
                if p.declared_cacheable {
                    seq![fv(p, Check::Cacheable, uncacheable_detail())]
                } else {
                    Seq::empty()
                }
            } else {
                match e.again {
                    None => Seq::empty(),
                    Some(t) => match t.outcome {
                        Err(f) => seq![fv(p, Check::Cacheable, second_failed_detail(f))],
                        Ok(second) => (if second.bytes@ != first.bytes@ {
                            seq![fv(p, Check::Cacheable, unstable_detail())]
                        } else {
                            Seq::empty()
                        }) + (if !root_hit(t.events@) && e.cached != Some(true) {
                            seq![fv(p, Check::Cacheable, recomputed_detail())]
                        } else {
                            Seq::empty()
                        }) + (if !first.threaded && !p.declared_pure {
                            seq![fv(p, Check::Cacheable, threadless_detail())]
                        } else {
                            Seq::empty()
                        }),
                    },
                }
            },
        }
    }
}

/// Whether `CACHEABLE` could not resolve the action.
pub open spec fn cacheable_unresolved(p: Probe, e: Evidence) -> bool {
    caching(p) && first_outcome(e) matches Some(Err(_))
}

/// Whether the first resolution came back cacheable under `CACHEABLE`, so the
/// golden-thread rule applied.
pub open spec fn pure_consulted(p: Probe, e: Evidence) -> bool {
    caching(p) && (first_outcome(e) matches Some(Ok(s)) && s.expiry != Expiry::Always)
}

// PIPELINE

/// The detail for a piped value that never reaches the action.
pub open spec fn unread_content_detail(name: Seq<char>) -> Seq<char> {
    "declares `content`, yet with `content` and every required input supplied it reports `"@ + name
        + "` missing: it reads an input its contract does not declare, so the piped value never reaches it"@
}

/// What `PIPELINE` finds when it fires the action: an argument reported missing
/// although `content` and every required input were supplied.
pub open spec fn pipeline_findings(p: Probe, e: Evidence) -> Seq<FindingView> {
    match e.fired {
        Some(Err(Failure::MissingArgument(n))) => if fires(p) {
            seq![fv(p, Check::Pipeline, unread_content_detail(n@))]
        } else {
            Seq::empty()
        },
        _ => Seq::empty(),
    }
}

// OUTPUTS

/// The latest minimal resolution's outcome: the second one where there was one.
pub open spec fn latest_outcome(e: Evidence) -> Option<Result<Served, Failure>> {
    match e.again {
        Some(t) => Some(t.outcome),
        None => first_outcome(e),
    }
}

/// What `OUTPUTS` reads: for a mutating verb the pipeline probe's firing, or else
/// a minimal resolution made for the graph checks; for any other verb the
/// minimal resolution.
pub open spec fn outputs_outcome(p: Probe, e: Evidence) -> Option<Result<Served, Failure>> {
    if mutating_verb(p.verb) {
        match e.fired {
            Some(o) => Some(o),
            None => latest_outcome(e),
        }
    } else {
        latest_outcome(e)
    }
}

/// The declared outputs, bare.
pub open spec fn declared_bare(p: Probe) -> Seq<Seq<char>> {
    p.outputs@.map_values(|o: String| bare(o@))
}

/// The `as=` label the minimal arguments carry, bare.
pub open spec fn as_label(p: Probe) -> Option<Seq<char>> {
    match first_value(p.args@, "as"@) {
        Some(a) => Some(bare(a)),
        None => None,
    }
}

/// The detail for a face served by an action that declares no output.
pub open spec fn no_output_detail(got: Seq<char>) -> Seq<char> {
    "served `"@ + got + "` but declares no output: a face the manifold does not announce (`.output(\""@
        + got + "\")`)"@
}

/// The detail for a face served that is not among the declared outputs.
pub open spec fn undeclared_detail(got: Seq<char>, declared: Seq<Seq<char>>) -> Seq<char> {
    "served `"@ + got + "` with its minimal inputs but declares only "@ + quoted(declared)
        + ": a face the manifold does not announce and the RDF checks never saw — declare it (`.output(\""@
        + got + "\")`) or serve what is declared"@
}

/// The reason a mutating action's face was not observed.
pub open spec fn never_fired_reason() -> Seq<char> {
    "never fired under root: a mutating action is fired only by the pipeline probe (PIPELINE, on an action declaring `content`), so what it serves was not observed"@
}

/// The reason nothing was observed after a failed resolution.
pub open spec fn nothing_served_reason() -> Seq<char> {
    "the minimal resolution failed, so nothing was served"@
}

/// The reason a face served under the caller's label says nothing.
pub open spec fn label_reason(got: Seq<char>) -> Seq<char> {
    "served the caller's `as="@ + got + "` label; the endpoint's own choice of face was not observed"@
}

/// What `OUTPUTS` finds, given whether a failure was already reported: the face
/// served must be one of the declared outputs.
pub open spec fn outputs_findings(p: Probe, e: Evidence, reported: bool) -> Seq<FindingView> {
    if !p.outputs_check {
        Seq::empty()
    } else {
        match outputs_outcome(p, e) {
            None => Seq::empty(),
            Some(Err(f)) => if reported {
                Seq::empty()
            } else {
                seq![fv(p, Check::Outputs, failure_detail(p, f))]
            },
            Some(Ok(s)) => {
                let got = bare(s.media_type@);
                if declared_bare(p).contains(got) || as_label(p) == Some(got) {
                    Seq::empty()
                } else if p.outputs@.len() == 0 {
                    seq![fv(p, Check::Outputs, no_output_detail(got))]
                } else {
                    seq![fv(p, Check::Outputs, undeclared_detail(got, declared_bare(p)))]
                }
            },
        }
    }
}

/// What `OUTPUTS` could not observe.
pub open spec fn outputs_unprobed(p: Probe, e: Evidence) -> Seq<UnprobedView> {
    if !p.outputs_check {
        Seq::empty()
    } else {
        match outputs_outcome(p, e) {
            None => seq![uv(p, Check::Outputs, never_fired_reason())],
            Some(Err(_)) => seq![uv(p, Check::Outputs, nothing_served_reason())],
            Some(Ok(s)) => {
                let got = bare(s.media_type@);
                if !declared_bare(p).contains(got) && as_label(p) == Some(got) {
                    seq![uv(p, Check::Outputs, label_reason(got))]
                } else {
                    Seq::empty()
                }
            },
        }
    }
}

// what was served

/// What the action served, whatever its media type: the resolution `OUTPUTS`
/// reads, when it succeeded.
pub open spec fn served_outcome(p: Probe, e: Evidence) -> Option<Served> {
    match outputs_outcome(p, e) {
        Some(Ok(s)) => Some(s),
        _ => None,
    }
}

/// The `probed` line for what the action served.
pub open spec fn served_line(p: Probe, e: Evidence) -> Option<ProbedView> {
    match served_outcome(p, e) {
        Some(s) => Some((p.id@, p.verb, bare(s.media_type@), 0usize, s.bytes@.len() as usize, false)),
        None => None,
    }
}

// the whole verdict

/// Whether a failure has been reported once `CACHEABLE` has run.
pub open spec fn reported_after_cacheable(p: Probe, e: Evidence, rd: Seq<Option<Result<Reading, String>>>, vocabulary: Seq<Seq<char>>) -> bool {
    faces_judged(p, e, rd, vocabulary).2 || cacheable_unresolved(p, e)
}

/// Every finding of the invoking checks on one action, in order.
pub open spec fn judged_findings(
    p: Probe,
    e: Evidence,
    rd: Seq<Option<Result<Reading, String>>>,
    vocabulary: Seq<Seq<char>>,
) -> Seq<FindingView> {
    enforced_findings(p, e) + authority_findings(p, e) + faces_judged(p, e, rd, vocabulary).0
        + cacheable_findings(p, e, faces_judged(p, e, rd, vocabulary).2) + pipeline_findings(p, e)
        + outputs_findings(p, e, reported_after_cacheable(p, e, rd, vocabulary))
}

/// Everything the invoking checks could not observe on one action, in order.
pub open spec fn judged_unprobed(p: Probe, e: Evidence) -> Seq<UnprobedView> {
    authority_unprobed(p, e) + outputs_unprobed(p, e)
}


// ----- the judging, stage by stage ----------------------------------------------------

/// The text the kernel prints for a failure.
pub fn failure_message(f: &Failure) -> (r: String)
    ensures
        r@ == failure_text(*f),
{
    match f {
        Failure::Denied(m) => {
            let mut r = owned("denied: ");
            append(&mut r, m.as_str());
            r
        },
        Failure::MissingArgument(n) => {
            let mut r = owned("missing required argument `");
            append(&mut r, n.as_str());
            append(&mut r, "`");
            r
        },
        Failure::Other(t) => t.clone(),
    }
}

/// The detail for a minimal resolution that failed.
fn failure_finding(p: &Probe, f: &Failure) -> (r: String)
    ensures
        r@ == failure_detail(*p, *f),
{
    let mut r = owned("did not resolve with the minimal inputs its ArgSpecs allow (");
    let m = failure_message(f);
    append(&mut r, m.as_str());
    append(&mut r, "); supply a `Fixture::new(\"");
    append(&mut r, p.id.as_str());
    append(&mut r, "\", Verb::");
    append(&mut r, p.verb.variant());
    append(&mut r, ")` with inputs that work, or opt out with a reason");
    r
}

/// `a`, `b` and `c` one after another.
fn text3(a: &str, b: &str, c: &str) -> (r: String)
    ensures
        r@ == a@ + b@ + c@,
{
    let mut r = owned(a);
    append(&mut r, b);
    append(&mut r, c);
    r
}

/// `s` with `ns` among the strings it holds.
fn note_namespace(used: &mut Vec<String>, ns: &String)
    ensures
        views(final(used)@).to_set() == views(old(used)@).to_set().insert(ns@),
{
    let ghost a = views(used@);
    used.push(ns.clone());
    proof {
        let b = views(used@);
        assert(b =~= a.push(ns@));
        assert forall|x: Seq<char>| b.to_set().contains(x) <==> a.to_set().insert(ns@).contains(x) by {
            if b.to_set().contains(x) {
                let i = choose|i: int| 0 <= i < b.len() && b[i] == x;
                if i < a.len() {
                    assert(a[i] == x);
                }
            }
            if a.to_set().contains(x) {
                let i = choose|i: int| 0 <= i < a.len() && a[i] == x;
                assert(b[i] == x);
            }
            if x == ns@ {
                assert(b[a.len() as int] == x);
            }
        }
        assert(b.to_set() =~= a.to_set().insert(ns@));
    }
}

impl Verdict {
    /// Nothing found yet.
    pub fn new() -> (v: Verdict)
        ensures
            v.findings@.len() == 0,
            v.unprobed@.len() == 0,
            v.probed@.len() == 0,
            !v.reported,
            !v.cacheable_ran,
            !v.pure_consulted,
            !v.unresolved,
            !v.faces_probed,
            v.namespaces_used@.len() == 0,
            v.served is None,
    {
        Verdict {
            findings: Vec::new(),
            unprobed: Vec::new(),
            probed: Vec::new(),
            reported: false,
            cacheable_ran: false,
            pure_consulted: false,
            unresolved: false,
            faces_probed: false,
            namespaces_used: Vec::new(),
            served: None,
        }
    }
}

/// `ENFORCED` on the evidence.
fn judge_enforced(p: &Probe, e: &Evidence, v: &mut Verdict)
    ensures
        fviews(final(v).findings@) == fviews(old(v).findings@) + enforced_findings(*p, *e),
        *final(v) == (Verdict { findings: final(v).findings, ..*old(v) }),
{
    let ghost start = fviews(v.findings@);
    if p.enforced {
        if let Some(o) = &e.no_grants {
            if p.requires.len() > 0 {
                match o {
                    Ok(_) => {
                        let q = quote_all(&p.requires);
                        let d = text3(
                            "declares requires ",
                            q.as_str(),
                            " but resolved under a capability holding no grants: declared is not enforced",
                        );
                        push_finding(&mut v.findings, p.id.as_str(), Some(p.verb), Check::Enforced, d);
                    },
                    Err(Failure::Denied(_)) => {},
                    Err(f) => {
                        let q = quote_all(&p.requires);
                        let mut d = text3(
                            "declares requires ",
                            q.as_str(),
                            "; under no grants expected a typed `Denied`, got `",
                        );
                        let m = failure_message(f);
                        append(&mut d, m.as_str());
                        append(&mut d, "`");
                        push_finding(&mut v.findings, p.id.as_str(), Some(p.verb), Check::Enforced, d);
                    },
                }
            } else {
                if let Err(Failure::Denied(m)) = o {
                    let d = text3(
                        "declares no capability but refused with `Denied` under no grants (",
                        m.as_str(),
                        "): an enforced scope the manifold does not declare — it over-offers",
                    );
                    push_finding(&mut v.findings, p.id.as_str(), Some(p.verb), Check::Enforced, d);
                }
            }
        }
    }
    assert(fviews(v.findings@) =~= start + enforced_findings(*p, *e));
}

/// `AUTHORITY` on the evidence.
fn judge_authority(p: &Probe, e: &Evidence, v: &mut Verdict)
    ensures
        fviews(final(v).findings@) == fviews(old(v).findings@) + authority_findings(*p, *e),
        uviews(final(v).unprobed@) == uviews(old(v).unprobed@) + authority_unprobed(*p, *e),
        *final(v) == (Verdict { findings: final(v).findings, unprobed: final(v).unprobed, ..*old(v) }),
{
    let ghost f0 = fviews(v.findings@);
    let ghost u0 = uviews(v.unprobed@);
    if p.authority && p.verb.is_mutating() && p.requires.len() == 0 {
        match &e.no_grants {
            Some(Ok(_)) => {
                push_finding(
                    &mut v.findings,
                    p.id.as_str(),
                    Some(p.verb),
                    Check::Authority,
                    owned(
                        "declares no `requires` and mutated under a capability holding no grants: authority over this write cannot be withheld from anyone who can reach the endpoint, so no caller can be given read without also getting write. Declare the scope it should require (`.requires(\"urn:cap:…\")` on the action, enforced by the kernel), or waive it with the reason it is deliberately open",
                    ),
                );
            },
            Some(Err(Failure::Denied(_))) => {},
            Some(Err(f)) => {
                let m = failure_message(f);
                let d = text3(
                    "declares no `requires` and did not resolve under no grants (",
                    m.as_str(),
                    "), so whether an ungranted caller can mutate through it was not observed: supply a `Fixture` with inputs that work, or say why it is open",
                );
                push_unprobed(&mut v.unprobed, p.id.as_str(), p.verb, Check::Authority, d);
            },
            None => {},
        }
    }
    assert(fviews(v.findings@) =~= f0 + authority_findings(*p, *e));
    assert(uviews(v.unprobed@) =~= u0 + authority_unprobed(*p, *e));
}

/// The registered namespace that accounts for `term`, if any.
fn first_covering<'a>(term: &str, namespaces: &'a Vec<String>) -> (r: Option<&'a String>)
    ensures
        match r {
            Some(ns) => covering(term@, views(namespaces@)) == Some(ns@),
            None => covering(term@, views(namespaces@)) is None,
        },
{
    if starts_with(term, crate::rdf::vocabulary_namespace()) {
        return None;
    }
    let mut i: usize = 0;
    assert(views(namespaces@).skip(0) =~= views(namespaces@));
    while i < namespaces.len()
        invariant
            i <= namespaces@.len(),
            !vocab_ns().is_prefix_of(term@),
            first_prefix(views(namespaces@), term@) == first_prefix(views(namespaces@).skip(i as int), term@),
        decreases namespaces@.len() - i,
    {
        proof {
            assert(views(namespaces@).skip(i as int)[0] == namespaces@[i as int]@);
            assert(views(namespaces@).skip(i as int).drop_first() =~= views(namespaces@).skip(i + 1));
        }
        if starts_with(term, namespaces[i].as_str()) {
            assert(first_prefix(views(namespaces@).skip(i as int), term@) == Some(namespaces@[i as int]@));
            return Some(&namespaces[i]);
        }
        i = i + 1;
    }
    None
}

/// `VOCABULARY` on the terms of one face.
fn judge_terms(p: &Probe, face: &String, terms: &Vec<String>, vocabulary: &Vec<String>, v: &mut Verdict)
    ensures
        fviews(final(v).findings@) == fviews(old(v).findings@) + vocab_findings(
            *p,
            face@,
            views(terms@),
            views(vocabulary@),
        ),
        views(final(v).namespaces_used@).to_set() == views(old(v).namespaces_used@).to_set().union(
            namespaces_covering(views(terms@), views(p.namespaces@), views(vocabulary@)),
        ),
        *final(v) == (Verdict {
            findings: final(v).findings,
            namespaces_used: final(v).namespaces_used,
            ..*old(v)
        }),
{
    let ghost f0 = fviews(v.findings@);
    let ghost u0 = views(v.namespaces_used@).to_set();
    let ghost voc = views(vocabulary@);
    let ghost nss = views(p.namespaces@);
    let none: Vec<String> = Vec::new();
    assert(views(none@) =~= Seq::<Seq<char>>::empty());
    let mut j: usize = 0;
    assert(views(terms@).take(0) =~= Seq::<Seq<char>>::empty());
    assert(u0.union(Set::<Seq<char>>::empty()) =~= u0);
    while j < terms.len()
        invariant
            j <= terms@.len(),
            voc == views(vocabulary@),
            nss == views(p.namespaces@),
            views(none@) == Seq::<Seq<char>>::empty(),
            fviews(v.findings@) == f0 + vocab_findings(*p, face@, views(terms@).take(j as int), voc),
            views(v.namespaces_used@).to_set() == u0.union(
                namespaces_covering(views(terms@).take(j as int), nss, voc),
            ),
            *v == (Verdict { findings: v.findings, namespaces_used: v.namespaces_used, ..*old(v) }),
        decreases terms@.len() - j,
    {
        let term = terms[j].as_str();
        let ghost fb = fviews(v.findings@);
        let ghost ub = views(v.namespaces_used@).to_set();
        proof {
            assert(views(terms@).take(j + 1).drop_last() =~= views(terms@).take(j as int));
            assert(views(terms@).take(j + 1).last() == term@);
        }
        if !is_defined_among(term, none.as_slice(), vocabulary.as_slice()) {
            match first_covering(term, &p.namespaces) {
                Some(ns) => {
                    note_namespace(&mut v.namespaces_used, ns);
                    assert(fviews(v.findings@) =~= fb + Seq::<FindingView>::empty());
                    assert(u0.union(namespaces_covering(views(terms@).take(j + 1), nss, voc)) =~= ub.insert(ns@));
                },
                None => {
                    let d = text3("the `", face.as_str(), "` face uses `");
                    let mut d = d;
                    append(&mut d, term);
                    append(
                        &mut d,
                        "`, which ikigai-vocab does not define and no well-known or registered namespace covers: an invented term with no definition (define it in the vocabulary, or `Suite::namespace` one the module serves)",
                    );
                    push_finding(&mut v.findings, p.id.as_str(), Some(p.verb), Check::Vocabulary, d);
                    assert(u0.union(namespaces_covering(views(terms@).take(j + 1), nss, voc)) =~= ub);
                },
            }
        } else {
            assert(fviews(v.findings@) =~= fb + Seq::<FindingView>::empty());
            assert(u0.union(namespaces_covering(views(terms@).take(j + 1), nss, voc)) =~= ub);
        }
        j = j + 1;
    }
    assert(views(terms@).take(terms@.len() as int) =~= views(terms@));
}

/// The detail for a face with blank nodes.
fn blank_finding(face: &String, blanks: &Vec<String>) -> (r: String)
    ensures
        r@ == blank_detail(face@, views(blanks@)),
{
    let n = blanks.len();
    let m: usize = if n > 3 { 3 } else { n };
    let mut first: Vec<String> = Vec::new();
    let mut i: usize = 0;
    while i < m
        invariant
            i <= m <= blanks@.len(),
            views(first@) == views(blanks@).take(i as int),
        decreases m - i,
    {
        let ghost before = views(first@);
        let b = blanks[i].clone();
        first.push(b);
        assert(views(first@) =~= before.push(blanks@[i as int]@));
        assert(views(blanks@).take(i + 1) =~= views(blanks@).take(i as int).push(blanks@[i as int]@));
        i = i + 1;
    }
    let mut r = text3("the `", face.as_str(), "` face has ");
    let count = decimal_string(n);
    append(&mut r, count.as_str());
    append(&mut r, " blank node(s) (");
    let shown = join(&first, ", ");
    append(&mut r, shown.as_str());
    if n > 3 {
        append(&mut r, ", …");
    }
    append(
        &mut r,
        "): skolemize — mint a stable IRI per node (`urn:ikigai:endpoint:{id}:…`, `urn:event:{uid}`), never a counter",
    );
    r
}


/// What the face at index `k` resolved to, if it was resolved.
fn face_outcome_of<'a>(p: &Probe, e: &'a Evidence, k: usize) -> (r: Option<&'a Result<Served, Failure>>)
    ensures
        match r {
            Some(o) => face_outcome(*p, *e, k as int) == Some(*o),
            None => face_outcome(*p, *e, k as int) is None,
        },
{
    if p.outputs.len() > 1 {
        if k < e.faces.len() {
            Some(&e.faces[k])
        } else {
            None
        }
    } else {
        match &e.minimal {
            Some(t) => Some(&t.outcome),
            None => None,
        }
    }
}

/// `SKOLEM-RDF` and `VOCABULARY` on the evidence and the readings of the faces.
#[verifier::rlimit(40)]
fn judge_faces(
    p: &Probe,
    e: &Evidence,
    readings: &Vec<Option<Result<Reading, String>>>,
    vocabulary: &Vec<String>,
    v: &mut Verdict,
)
    requires
        !old(v).reported,
    ensures
        fviews(final(v).findings@) == fviews(old(v).findings@) + faces_judged(
            *p,
            *e,
            readings@,
            views(vocabulary@),
        ).0,
        pviews(final(v).probed@) == pviews(old(v).probed@) + faces_judged(
            *p,
            *e,
            readings@,
            views(vocabulary@),
        ).1,
        final(v).reported == faces_judged(*p, *e, readings@, views(vocabulary@)).2,
        final(v).faces_probed == (old(v).faces_probed || faces_judged(
            *p,
            *e,
            readings@,
            views(vocabulary@),
        ).3),
        views(final(v).namespaces_used@).to_set() == views(old(v).namespaces_used@).to_set().union(
            faces_judged(*p, *e, readings@, views(vocabulary@)).4,
        ),
        *final(v) == (Verdict {
            findings: final(v).findings,
            probed: final(v).probed,
            reported: final(v).reported,
            faces_probed: final(v).faces_probed,
            namespaces_used: final(v).namespaces_used,
            ..*old(v)
        }),
{
    let ghost f0 = fviews(v.findings@);
    let ghost p0 = pviews(v.probed@);
    let ghost fp0 = v.faces_probed;
    let ghost u0 = views(v.namespaces_used@).to_set();
    let ghost voc = views(vocabulary@);
    assert(u0.union(Set::<Seq<char>>::empty()) =~= u0);
    assert(f0 + Seq::<FindingView>::empty() =~= f0);
    assert(p0 + Seq::<ProbedView>::empty() =~= p0);
    if !(p.skolem || p.vocabulary) {
        return;
    }
    let mut k: usize = 0;
    while k < p.faces.len()
        invariant
            k <= p.faces@.len(),
            graphs(*p),
            voc == views(vocabulary@),
            fviews(v.findings@) == f0 + faces_upto(*p, *e, readings@, voc, k as int).0,
            pviews(v.probed@) == p0 + faces_upto(*p, *e, readings@, voc, k as int).1,
            v.reported == faces_upto(*p, *e, readings@, voc, k as int).2,
            v.faces_probed == (fp0 || faces_upto(*p, *e, readings@, voc, k as int).3),
            views(v.namespaces_used@).to_set() == u0.union(faces_upto(*p, *e, readings@, voc, k as int).4),
            *v == (Verdict {
                findings: v.findings,
                probed: v.probed,
                reported: v.reported,
                faces_probed: v.faces_probed,
                namespaces_used: v.namespaces_used,
                ..*old(v)
            }),
        decreases p.faces@.len() - k,
    {
        let ghost st = faces_upto(*p, *e, readings@, voc, k as int);
        let ghost fb = fviews(v.findings@);
        let ghost pb = pviews(v.probed@);
        let ghost ub = views(v.namespaces_used@).to_set();
        let face = &p.faces[k];
        let ghost next = face_step(*p, *e, readings@, voc, k as int, st);
        assert(faces_upto(*p, *e, readings@, voc, k + 1) == next);
        match face_outcome_of(p, e, k) {
            None => {},
            Some(Err(f)) => {
                if !v.reported {
                    let d = failure_finding(p, f);
                    let c = if p.skolem { Check::SkolemRdf } else { Check::Vocabulary };
                    push_finding(&mut v.findings, p.id.as_str(), Some(p.verb), c, d);
                    v.reported = true;
                }
            },
            Some(Ok(srv)) => {
                let got = bare_media_type(srv.media_type.as_str());
                let c = if p.skolem { Check::SkolemRdf } else { Check::Vocabulary };
                if !crate::rdf::is_rdf_bare(got.as_str()) {
                    let mut d = text3("asked for the `", face.as_str(), "` face and got `");
                    append(&mut d, srv.type_text.as_str());
                    append(&mut d, "`: a declared output the action does not serve");
                    push_finding(&mut v.findings, p.id.as_str(), Some(p.verb), c, d);
                } else if k < readings.len() {
                    match &readings[k] {
                        None => {},
                        Some(Err(m)) => {
                            let d = text3("the `", face.as_str(), "` face ");
                            let mut d = d;
                            append(&mut d, m.as_str());
                            push_finding(&mut v.findings, p.id.as_str(), Some(p.verb), c, d);
                        },
                        Some(Ok(r)) => {
                            let ghost fs = fviews(v.findings@);
                            if p.skolem && r.blanks.len() > 0 {
                                let d = blank_finding(face, &r.blanks);
                                push_finding(&mut v.findings, p.id.as_str(), Some(p.verb), Check::SkolemRdf, d);
                            }
                            let ghost fm = fviews(v.findings@);
                            if p.vocabulary {
                                judge_terms(p, face, &r.terms, vocabulary, v);
                            } else {
                                assert(ub.union(Set::<Seq<char>>::empty()) =~= ub);
                            }
                            let ghost pb2 = pviews(v.probed@);
                            v.probed.push(
                                Probed {
                                    endpoint: p.id.clone(),
                                    verb: p.verb,
                                    face: face.clone(),
                                    triples: r.triples,
                                    bytes: srv.bytes.len(),
                                    parsed: true,
                                },
                            );
                            v.faces_probed = true;
                            proof {
                                assert(pviews(v.probed@) =~= pb2.push(
                                    (p.id@, p.verb, face@, r.triples, srv.bytes@.len() as usize, true),
                                ));
                                assert(fviews(v.findings@) =~= fs + (if p.skolem && r.blanks@.len() > 0 {
                                    seq![fv(*p, Check::SkolemRdf, blank_detail(face@, views(r.blanks@)))]
                                } else {
                                    Seq::empty()
                                }) + (if p.vocabulary {
                                    vocab_findings(*p, face@, views(r.terms@), voc)
                                } else {
                                    Seq::empty()
                                }));
                            }
                        },
                    }
                }
            },
        }
        proof {
            assert(fviews(v.findings@) =~= f0 + next.0);
            assert(pviews(v.probed@) =~= p0 + next.1);
            assert(views(v.namespaces_used@).to_set() =~= u0.union(next.4));
        }
        k = k + 1;
    }
}

/// Whether two byte strings are equal.
fn same_bytes(a: &Vec<u8>, b: &Vec<u8>) -> (r: bool)
    ensures
        r == (a@ == b@),
{
    if a.len() != b.len() {
        return false;
    }
    let mut i: usize = 0;
    while i < a.len()
        invariant
            a@.len() == b@.len(),
            i <= a@.len(),
            forall|j: int| 0 <= j < i ==> a@[j] == b@[j],
        decreases a@.len() - i,
    {
        if a[i] != b[i] {
            return false;
        }
        i = i + 1;
    }
    assert(a@ =~= b@);
    true
}

/// How a cacheable expiry reads in a finding.
fn expiry_words(x: Expiry) -> (r: String)
    ensures
        r@ == expiry_text(x),
{
    match x {
        Expiry::Never => owned("`Expiry::Never` — permanently"),
        Expiry::At(t) => {
            let n = decimal_u64(t);
            text3("`At(Time(", n.as_str(), "))`")
        },
        Expiry::Always => owned("`Always`"),
    }
}

/// `CACHEABLE` on the evidence.
fn judge_cacheable(p: &Probe, e: &Evidence, v: &mut Verdict)
    ensures
        fviews(final(v).findings@) == fviews(old(v).findings@) + cacheable_findings(
            *p,
            *e,
            old(v).reported,
        ),
        final(v).reported == (old(v).reported || cacheable_unresolved(*p, *e)),
        final(v).cacheable_ran == (old(v).cacheable_ran || caching(*p)),
        final(v).pure_consulted == (old(v).pure_consulted || pure_consulted(*p, *e)),
        final(v).unresolved == (old(v).unresolved || cacheable_unresolved(*p, *e)),
        *final(v) == (Verdict {
            findings: final(v).findings,
            reported: final(v).reported,
            cacheable_ran: final(v).cacheable_ran,
            pure_consulted: final(v).pure_consulted,
            unresolved: final(v).unresolved,
            ..*old(v)
        }),
{
    let ghost f0 = fviews(v.findings@);
    let ghost r0 = v.reported;
    if !(p.cacheable && p.verb.is_cacheable()) {
        assert(fviews(v.findings@) =~= f0 + cacheable_findings(*p, *e, r0));
        return;
    }
    v.cacheable_ran = true;
    if p.declared_cacheable && p.declared_live {
        push_finding(
            &mut v.findings,
            p.id.as_str(),
            Some(p.verb),
            Check::Cacheable,
            owned(
                "declared both cacheable (`Suite::cacheable`) and live (`Suite::live`): the two are opposite promises about the same endpoint, so one of them is certainly false — keep the one the module means",
            ),
        );
    }
    let ghost f1 = fviews(v.findings@);
    match &e.minimal {
        None => {},
        Some(t) => match &t.outcome {
            Err(f) => {
                v.unresolved = true;
                if !v.reported {
                    let d = failure_finding(p, f);
                    push_finding(&mut v.findings, p.id.as_str(), Some(p.verb), Check::Cacheable, d);
                }
                v.reported = true;
            },
            Ok(first) => {
                if first.expiry != Expiry::Always {
                    v.pure_consulted = true;
                }
                if p.declared_live && first.expiry != Expiry::Always {
                    let x = expiry_words(first.expiry);
                    let d = text3(
                        "declared live (`Suite::live`) but the kernel returned it cacheable (",
                        x.as_str(),
                        "): a resource that must be read fresh is now served from the cache until something cuts a thread. Effective expiry propagates, so this is usually a dependency that became cacheable, or a `.cacheable()` added to a result that reads live state",
                    );
                    push_finding(&mut v.findings, p.id.as_str(), Some(p.verb), Check::Cacheable, d);
                } else if first.expiry == Expiry::Always {
                    if p.declared_cacheable {
                        push_finding(
                            &mut v.findings,
                            p.id.as_str(),
                            Some(p.verb),
                            Check::Cacheable,
                            owned(
                                "declared cacheable (`Suite::cacheable`) but the kernel returned it uncacheable: the effective expiry is the least cacheable part's, so a dependency resolved on the way is volatile — every read recomputes",
                            ),
                        );
                    }
                } else {
                    match &e.again {
                        None => {},
                        Some(t2) => match &t2.outcome {
                            Err(f) => {
                                let m = failure_message(f);
                                let mut d = owned("cacheable, but the second identical resolution failed: ");
                                append(&mut d, m.as_str());
                                push_finding(&mut v.findings, p.id.as_str(), Some(p.verb), Check::Cacheable, d);
                            },
                            Ok(second) => {
                                let ghost fa = fviews(v.findings@);
                                if !same_bytes(&second.bytes, &first.bytes) {
                                    push_finding(
                                        &mut v.findings,
                                        p.id.as_str(),
                                        Some(p.verb),
                                        Check::Cacheable,
                                        owned(
                                            "marked cacheable but two identical resolutions returned different bytes: not a function of its inputs",
                                        ),
                                    );
                                }
                                let ghost fb = fviews(v.findings@);
                                let hit = traced_hit(&t2.events);
                                let cached = match e.cached {
                                    Some(b) => b,
                                    None => false,
                                };
                                if !hit && !cached {
                                    push_finding(
                                        &mut v.findings,
                                        p.id.as_str(),
                                        Some(p.verb),
                                        Check::Cacheable,
                                        owned(
                                            "marked cacheable but the second resolution recomputed (the trace records no cache hit): a dependency is uncacheable — effective expiry is the least cacheable part's — or the result carries `Expiry::At` on a clockless kernel",
                                        ),
                                    );
                                }
                                let ghost fc = fviews(v.findings@);
                                if !first.threaded && !p.declared_pure {
                                    push_finding(
                                        &mut v.findings,
                                        p.id.as_str(),
                                        Some(p.verb),
                                        Check::Cacheable,
                                        owned(
                                            "cacheable with an empty golden-thread set: it will be served forever with nothing to cut it. `Suite::pure(id)` if it is a pure function of its inputs; otherwise `depends_on` the thread of the state it reads",
                                        ),
                                    );
                                }
                                proof {
                                    assert(fviews(v.findings@) =~= fa + ((if second.bytes@ != first.bytes@ {
                                        seq![fv(*p, Check::Cacheable, unstable_detail())]
                                    } else {
                                        Seq::empty()
                                    }) + (if !root_hit(t2.events@) && e.cached != Some(true) {
                                        seq![fv(*p, Check::Cacheable, recomputed_detail())]
                                    } else {
                                        Seq::empty()
                                    }) + (if !first.threaded && !p.declared_pure {
                                        seq![fv(*p, Check::Cacheable, threadless_detail())]
                                    } else {
                                        Seq::empty()
                                    })));
                                }
                            },
                        },
                    }
                }
            },
        },
    }
    assert(fviews(v.findings@) =~= f0 + cacheable_findings(*p, *e, r0));
}

/// `PIPELINE` (its invoking half) on the evidence.
fn judge_pipeline(p: &Probe, e: &Evidence, v: &mut Verdict)
    ensures
        fviews(final(v).findings@) == fviews(old(v).findings@) + pipeline_findings(*p, *e),
        *final(v) == (Verdict { findings: final(v).findings, ..*old(v) }),
{
    let ghost f0 = fviews(v.findings@);
    if p.pipeline && p.content.is_some() {
        if let Some(Err(Failure::MissingArgument(n))) = &e.fired {
            let d = text3(
                "declares `content`, yet with `content` and every required input supplied it reports `",
                n.as_str(),
                "` missing: it reads an input its contract does not declare, so the piped value never reaches it",
            );
            push_finding(&mut v.findings, p.id.as_str(), Some(p.verb), Check::Pipeline, d);
        }
    }
    assert(fviews(v.findings@) =~= f0 + pipeline_findings(*p, *e));
}

/// What `OUTPUTS` reads.
fn outputs_outcome_of<'a>(p: &Probe, e: &'a Evidence) -> (r: Option<&'a Result<Served, Failure>>)
    ensures
        match r {
            Some(o) => outputs_outcome(*p, *e) == Some(*o),
            None => outputs_outcome(*p, *e) is None,
        },
{
    let latest = match &e.again {
        Some(t) => Some(&t.outcome),
        None => match &e.minimal {
            Some(t) => Some(&t.outcome),
            None => None,
        },
    };
    if p.verb.is_mutating() {
        match &e.fired {
            Some(o) => Some(o),
            None => latest,
        }
    } else {
        latest
    }
}

/// The declared outputs, bare.
fn declared_list(p: &Probe) -> (r: Vec<String>)
    ensures
        views(r@) == declared_bare(*p),
{
    let mut r: Vec<String> = Vec::new();
    let mut i: usize = 0;
    while i < p.outputs.len()
        invariant
            i <= p.outputs@.len(),
            views(r@) == declared_bare(*p).take(i as int),
        decreases p.outputs@.len() - i,
    {
        let b = bare_media_type(p.outputs[i].as_str());
        let ghost before = views(r@);
        let ghost bv = b@;
        r.push(b);
        assert(views(r@) =~= before.push(bv));
        assert(declared_bare(*p).take(i + 1) =~= declared_bare(*p).take(i as int).push(bv));
        i = i + 1;
    }
    assert(declared_bare(*p).take(p.outputs@.len() as int) =~= declared_bare(*p));
    r
}

/// `OUTPUTS` on the evidence.
fn judge_outputs(p: &Probe, e: &Evidence, v: &mut Verdict)
    ensures
        fviews(final(v).findings@) == fviews(old(v).findings@) + outputs_findings(
            *p,
            *e,
            old(v).reported,
        ),
        uviews(final(v).unprobed@) == uviews(old(v).unprobed@) + outputs_unprobed(*p, *e),
        *final(v) == (Verdict {
            findings: final(v).findings,
            unprobed: final(v).unprobed,
            reported: final(v).reported,
            ..*old(v)
        }),
{
    let ghost f0 = fviews(v.findings@);
    let ghost u0 = uviews(v.unprobed@);
    let ghost r0 = v.reported;
    if !p.outputs_check {
        assert(fviews(v.findings@) =~= f0 + outputs_findings(*p, *e, r0));
        assert(uviews(v.unprobed@) =~= u0 + outputs_unprobed(*p, *e));
        return;
    }
    match outputs_outcome_of(p, e) {
        None => {
            push_unprobed(
                &mut v.unprobed,
                p.id.as_str(),
                p.verb,
                Check::Outputs,
                owned(
                    "never fired under root: a mutating action is fired only by the pipeline probe (PIPELINE, on an action declaring `content`), so what it serves was not observed",
                ),
            );
        },
        Some(Err(f)) => {
            if !v.reported {
                let d = failure_finding(p, f);
                push_finding(&mut v.findings, p.id.as_str(), Some(p.verb), Check::Outputs, d);
            }
            v.reported = true;
            push_unprobed(
                &mut v.unprobed,
                p.id.as_str(),
                p.verb,
                Check::Outputs,
                owned("the minimal resolution failed, so nothing was served"),
            );
        },
        Some(Ok(s)) => {
            let got = bare_media_type(s.media_type.as_str());
            let declared = declared_list(p);
            if !is_listed(&declared, got.as_str()) {
                proof {
                    assert(!declared_bare(*p).contains(got@)) by {
                        if declared_bare(*p).contains(got@) {
                            let i = choose|i: int| 0 <= i < declared_bare(*p).len() && declared_bare(*p)[i] == got@;
                            assert(declared@[i]@ == got@);
                        }
                    }
                }
                let labelled = match find(&p.args, "as") {
                    Some(a) => {
                        let l = bare_media_type(a.as_str());
                        same(l.as_str(), got.as_str())
                    },
                    None => false,
                };
                if labelled {
                    let d = text3(
                        "served the caller's `as=",
                        got.as_str(),
                        "` label; the endpoint's own choice of face was not observed",
                    );
                    push_unprobed(&mut v.unprobed, p.id.as_str(), p.verb, Check::Outputs, d);
                } else if p.outputs.len() == 0 {
                    let mut d = text3(
                        "served `",
                        got.as_str(),
                        "` but declares no output: a face the manifold does not announce (`.output(\"",
                    );
                    append(&mut d, got.as_str());
                    append(&mut d, "\")`)");
                    push_finding(&mut v.findings, p.id.as_str(), Some(p.verb), Check::Outputs, d);
                } else {
                    let q = quote_all(&declared);
                    let mut d = text3("served `", got.as_str(), "` with its minimal inputs but declares only ");
                    append(&mut d, q.as_str());
                    append(
                        &mut d,
                        ": a face the manifold does not announce and the RDF checks never saw — declare it (`.output(\"",
                    );
                    append(&mut d, got.as_str());
                    append(&mut d, "\")`) or serve what is declared");
                    push_finding(&mut v.findings, p.id.as_str(), Some(p.verb), Check::Outputs, d);
                }
            } else {
                proof {
                    let i = choose|i: int| 0 <= i < declared@.len() && #[trigger] declared@[i]@ == got@;
                    assert(declared_bare(*p)[i] == got@);
                }
            }
        },
    }
    assert(fviews(v.findings@) =~= f0 + outputs_findings(*p, *e, r0));
    assert(uviews(v.unprobed@) =~= u0 + outputs_unprobed(*p, *e));
}

/// The `probed` line for what the action served.
fn served_probe(p: &Probe, e: &Evidence) -> (r: Option<Probed>)
    ensures
        match r {
            Some(x) => served_line(*p, *e) == Some(pview(x)),
            None => served_line(*p, *e) is None,
        },
{
    match outputs_outcome_of(p, e) {
        Some(Ok(s)) => Some(
            Probed {
                endpoint: p.id.clone(),
                verb: p.verb,
                face: bare_media_type(s.media_type.as_str()),
                triples: 0,
                bytes: s.bytes.len(),
                parsed: false,
            },
        ),
        _ => None,
    }
}

impl Probe {
    /// What the invoking checks make of the evidence, given the readings of the
    /// faces ([`read_faces`]) and the terms the shared vocabulary defines.
    pub fn judge(
        &self,
        e: &Evidence,
        readings: &Vec<Option<Result<Reading, String>>>,
        vocabulary: &Vec<String>,
    ) -> (v: Verdict)
        ensures
            fviews(v.findings@) == judged_findings(*self, *e, readings@, views(vocabulary@)),
            uviews(v.unprobed@) == judged_unprobed(*self, *e),
            pviews(v.probed@) == faces_judged(*self, *e, readings@, views(vocabulary@)).1,
            v.faces_probed == faces_judged(*self, *e, readings@, views(vocabulary@)).3,
            views(v.namespaces_used@).to_set() == faces_judged(
                *self,
                *e,
                readings@,
                views(vocabulary@),
            ).4,
            v.cacheable_ran == caching(*self),
            v.pure_consulted == pure_consulted(*self, *e),
            v.unresolved == cacheable_unresolved(*self, *e),
            match v.served {
                Some(x) => served_line(*self, *e) == Some(pview(x)),
                None => served_line(*self, *e) is None,
            },
    {
        let mut v = Verdict::new();
        assert(fviews(v.findings@) =~= Seq::<FindingView>::empty());
        assert(uviews(v.unprobed@) =~= Seq::<UnprobedView>::empty());
        assert(pviews(v.probed@) =~= Seq::<ProbedView>::empty());
        assert(views(v.namespaces_used@).to_set() =~= Set::<Seq<char>>::empty());
        judge_enforced(self, e, &mut v);
        judge_authority(self, e, &mut v);
        judge_faces(self, e, readings, vocabulary, &mut v);
        judge_cacheable(self, e, &mut v);
        judge_pipeline(self, e, &mut v);
        judge_outputs(self, e, &mut v);
        v.served = served_probe(self, e);
        assert(fviews(v.findings@) =~= judged_findings(*self, *e, readings@, views(vocabulary@)));
        assert(uviews(v.unprobed@) =~= judged_unprobed(*self, *e));
        assert(pviews(v.probed@) =~= faces_judged(*self, *e, readings@, views(vocabulary@)).1);
        assert(views(v.namespaces_used@).to_set() =~= faces_judged(
            *self,
            *e,
            readings@,
            views(vocabulary@),
        ).4);
        v
    }
}

/// Whether the graph checks parse the face at index `k`: they run, and it was
/// served as an RDF media type.
pub open spec fn reads_face(p: Probe, e: Evidence, k: int) -> bool {
    graphs(p) && match face_outcome(p, e, k) {
        Some(Ok(s)) => rdf_faces().contains(bare(s.media_type@)),
        _ => false,
    }
}

/// Whether `rd` is the reading of a graph of shape `g`: its triple count, its
/// blank nodes (there are some exactly when some triple has one, and no more
/// than the graph has; their labels are the parser's) and the terms its triples
/// use, each once, in sorted order.
pub open spec fn reading_of(rd: Reading, g: Seq<(Seq<char>, Seq<char>, Seq<char>)>) -> bool {
    &&& rd.triples == g.len()
    &&& ascending(views(rd.blanks@))
    &&& (rd.blanks@.len() == 0 <==> forall|i: int| 0 <= i < g.len() ==> !shape_has_blank(#[trigger] g[i]))
    &&& rd.blanks@.len() <= blank_parts(g).len()
    &&& ascending(views(rd.terms@))
    &&& forall|term: Seq<char>|
        #![trigger views(rd.terms@).to_set().contains(term)]
        views(rd.terms@).to_set().contains(term) <==> exists|i: int|
            0 <= i < g.len() && #[trigger] shape_uses_term(g[i], term)
}

/// What reading the served face `s` gave: for bytes that parse as its bare media
/// type, the reading of their graph; else a message that names the media type.
pub open spec fn face_read(s: Served, x: Result<Reading, String>) -> bool {
    match x {
        Ok(rd) => rdf_graph(bare(s.media_type@), s.bytes@) matches Some(g) && reading_of(rd, g),
        Err(m) => rdf_graph(bare(s.media_type@), s.bytes@) is None && syntax_message_head(
            bare(s.media_type@),
        ).is_prefix_of(m@),
    }
}

/// No more distinct labels are read than the graph has blank nodes: a blank node
/// keeps one label wherever it stands.
proof fn lemma_blank_count(v: Seq<Triple>, g: Seq<(Seq<char>, Seq<char>, Seq<char>)>, labels: Seq<Seq<char>>)
    requires
        reads_as(v, g),
        ascending(labels),
        forall|l: Seq<char>|
            #![trigger labels.to_set().contains(l)]
            labels.to_set().contains(l) <==> exists|i: int| 0 <= i < v.len() && #[trigger] has_blank(v[i], l),
    ensures
        labels.len() <= blank_parts(g).len(),
{
    broadcast use vstd::seq_lib::seq_to_set_is_finite;
    assert(labels.no_duplicates()) by {
        assert forall|i: int, j: int| 0 <= i < labels.len() && 0 <= j < labels.len() && i != j implies labels[i]
            != labels[j] by {
            crate::text::lemma_before_total(labels[i], labels[j]);
        }
    }
    labels.unique_seq_to_set();
    let big = blank_parts(g);
    let all = g.map_values(|x: (Seq<char>, Seq<char>, Seq<char>)| x.0) + g.map_values(
        |x: (Seq<char>, Seq<char>, Seq<char>)| x.2,
    );
    assert(big.subset_of(all.to_set())) by {
        assert forall|p: Seq<char>| big.contains(p) implies all.to_set().contains(p) by {
            let (i, a) = choose|i: int, a: bool| 0 <= i < g.len() && #[trigger] part_at(g[i], a) == p && shows_blank(p);
            if a {
                assert(all[g.len() + i] == p);
            } else {
                assert(all[i] == p);
            }
        }
    }
    vstd::set_lib::lemma_len_subset(big, all.to_set());
    let f = |p: Seq<char>|
        {
            let (i, a) = choose|i: int, a: bool| 0 <= i < g.len() && #[trigger] part_at(g[i], a) == p && shows_blank(p);
            blank_label(node_at(v[i], a))->0
        };
    let small = labels.to_set();
    assert(big.map(f) =~= small) by {
        assert forall|l: Seq<char>| big.map(f).contains(l) implies small.contains(l) by {
            let p = choose|p: Seq<char>| big.contains(p) && f(p) == l;
            let (i, a) = choose|i: int, a: bool| 0 <= i < g.len() && #[trigger] part_at(g[i], a) == p && shows_blank(p);
            assert(shows_triple(v[i], g[i]));
            crate::rdf::lemma_shape_reads(v[i], g[i], seq![]);
            assert(has_blank(v[i], l));
        }
        assert forall|l: Seq<char>| small.contains(l) implies big.map(f).contains(l) by {
            let i = choose|i: int| 0 <= i < v.len() && #[trigger] has_blank(v[i], l);
            assert(shows_triple(v[i], g[i]));
            crate::rdf::lemma_shape_reads(v[i], g[i], seq![]);
            let a = !(blank_label(v[i].subject) == Some(l));
            assert(blank_label(node_at(v[i], a)) == Some(l));
            let p = part_at(g[i], a);
            assert(shows_blank(p));
            assert(big.contains(p));
            let (i2, a2) = choose|i2: int, a2: bool| 0 <= i2 < g.len() && #[trigger] part_at(g[i2], a2) == p && shows_blank(p);
            assert(part_at(g[i2], a2) == part_at(g[i], a));
            assert(f(p) == l);
        }
    }
    vstd::set_lib::lemma_map_size_bound(big, small, f);
}

/// The reading of parsed triples: their count, blank nodes and terms.
fn reading(triples: &Vec<Triple>, Ghost(g): Ghost<Seq<(Seq<char>, Seq<char>, Seq<char>)>>) -> (rd: Reading)
    requires
        reads_as(triples@, g),
    ensures
        reading_of(rd, g),
{
    let blanks = blank_nodes(triples.as_slice());
    let used = terms(triples.as_slice());
    proof {
        assert forall|term: Seq<char>|
            #![trigger views(used@).to_set().contains(term)]
            views(used@).to_set().contains(term) <==> exists|i: int|
                0 <= i < g.len() && #[trigger] shape_uses_term(g[i], term) by {
            if views(used@).to_set().contains(term) {
                let j = choose|j: int| 0 <= j < triples@.len() && #[trigger] uses_term(triples@[j], term);
                lemma_shape_reads(triples@[j], g[j], term);
            }
            if exists|i: int| 0 <= i < g.len() && #[trigger] shape_uses_term(g[i], term) {
                let j = choose|i: int| 0 <= i < g.len() && #[trigger] shape_uses_term(g[i], term);
                lemma_shape_reads(triples@[j], g[j], term);
                assert(uses_term(triples@[j], term));
            }
        }
        if blanks@.len() == 0 {
            assert forall|i: int| 0 <= i < g.len() implies !shape_has_blank(#[trigger] g[i]) by {
                lemma_shape_reads(triples@[i], g[i], seq![]);
                if shape_has_blank(g[i]) {
                    let t = triples@[i];
                    let l = if blank_label(t.subject) is Some {
                        blank_label(t.subject)->0
                    } else {
                        blank_label(t.object)->0
                    };
                    assert(has_blank(t, l));
                    assert(views(blanks@).to_set().contains(l));
                    assert(views(blanks@).len() == 0);
                    assert(false);
                }
            }
        } else {
            let l = views(blanks@)[0];
            assert(views(blanks@).to_set().contains(l));
            let j = choose|j: int| 0 <= j < triples@.len() && #[trigger] has_blank(triples@[j], l);
            lemma_shape_reads(triples@[j], g[j], seq![]);
            assert(shape_has_blank(g[j]));
        }
    }
    proof {
        lemma_blank_count(triples@, g, views(blanks@));
    }
    Reading { triples: triples.len(), blanks, terms: used }
}

/// Parses the RDF faces the graph checks read: for each declared face that was
/// served as an RDF media type, the reading of the graph oxrdfio reads from the
/// served bytes in the served media type (its triple count, blank nodes and
/// terms), or, when the bytes do not parse, the parser's message.
pub fn read_faces(p: &Probe, e: &Evidence) -> (r: Vec<Option<Result<Reading, String>>>)
    ensures
        r@.len() == p.faces@.len(),
        forall|k: int|
            0 <= k < r@.len() ==> ((#[trigger] r@[k] is Some) <==> reads_face(*p, *e, k)),
        forall|k: int|
            0 <= k < r@.len() ==> (#[trigger] r@[k] matches Some(x) ==> face_outcome(*p, *e, k) matches Some(Ok(s))
                && face_read(s, x)),
{
    let mut r: Vec<Option<Result<Reading, String>>> = Vec::new();
    let graph = p.skolem || p.vocabulary;
    let mut k: usize = 0;
    while k < p.faces.len()
        invariant
            k <= p.faces@.len(),
            r@.len() == k,
            graph == graphs(*p),
            forall|j: int|
                0 <= j < k ==> ((#[trigger] r@[j] is Some) <==> reads_face(*p, *e, j)),
            forall|j: int|
                0 <= j < k ==> (#[trigger] r@[j] matches Some(x) ==> face_outcome(*p, *e, j) matches Some(Ok(s))
                    && face_read(s, x)),
        decreases p.faces@.len() - k,
    {
        let mut reading_k: Option<Result<Reading, String>> = None;
        if graph {
            if let Some(Ok(s)) = face_outcome_of(p, e, k) {
                let got = bare_media_type(s.media_type.as_str());
                if crate::rdf::is_rdf_bare(got.as_str()) {
                    let x = match parse_bare(got.as_str(), s.bytes.as_slice()) {
                        Ok(triples) => Ok(
                            reading(
                                &triples,
                                Ghost(rdf_graph(bare(s.media_type@), s.bytes@)->Some_0),
                            ),
                        ),
                        Err(m) => Err(m),
                    };
                    assert(face_read(*s, x));
                    reading_k = Some(x);
                }
            }
        }
        r.push(reading_k);
        k = k + 1;
    }
    r
}

} // verus!
