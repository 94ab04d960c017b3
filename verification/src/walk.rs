//! The walk: every endpoint the kernel lists, every action each declares, every
//! selected check — findings accumulated, never short-circuited — and, at its
//! end, every declaration the module made held against what the walk covered.
//!
//! The host enumerates the root space and resolves descriptions; the walk decides
//! what each entry is worth, which actions are probed, and what the evidence of
//! each probe means.
use crate::checks::{check_invokes, check_label, Check};
use crate::fixture::{fixture_text, Fixture};
use crate::model::{cacheable_verb, mutating_verb, verb_label, Verb};
use crate::model::{ActionSpec, Description};
use crate::model::Entry;
use crate::probe::{
    cacheable_unresolved, caching, faces_judged, judged_findings, judged_unprobed, planned,
    pure_consulted, served_line, Evidence, Probe, Reading, Verdict,
};
use crate::rdf::{a_vocabulary, bare, is_rdf_face, rdf_faces, vocabulary_terms};
use crate::report::{
    fviews, push_finding, pview, pviews, uviews, waived, Declarations, FindingView, Probed,
    ProbedView, Report,
};
use crate::statics::{
    argspecs, argspecs_findings, names, names_findings, pipeline_static, pipeline_static_findings,
    requires_verb, requires_verb_findings,
};
use crate::template::{pattern_vars, target, target_for, template_checks, template_findings, template_vars};
use crate::statics::quoted;
use crate::laws::{gated, lemma_declarations_gated, lemma_entered_gated, lemma_gated_concat, lemma_judged_gated};
use crate::suite::{excluded, listed, runs, Suite, KERNEL_NS, SUITE};
use crate::text::{append, ascending, insert_sorted, is_listed, joined, owned, same, starts_with, views};
use vstd::prelude::*;

verus! {

/// What the walk covered, recorded as it goes: the evidence the declaration
/// checks read to say which declarations were never consulted.
#[derive(Debug)]
pub struct Coverage {
    /// Description ids the walk reached, in walk order, each once.
    pub walked: Vec<String>,
    /// Every action a walked description declared, in walk order, each once.
    pub actions: Vec<(String, Verb)>,
    /// The actions the walk skipped because of an opt-out, each once.
    pub opted_out: Vec<(String, Verb)>,
    /// Ids declaring at least one RDF face.
    pub rdf_faces: Vec<String>,
    /// The template variables of every pattern an id is bound at: per id, once,
    /// its variables in sorted order.
    pub vars: Vec<(String, Vec<String>)>,
    /// Ids for which `CACHEABLE` ran at all.
    pub cacheable_ran: Vec<String>,
    /// Ids whose result came back cacheable, so the golden-thread rule applied.
    pub pure_consulted: Vec<String>,
    /// Ids whose minimal resolution failed under `CACHEABLE`.
    pub cacheable_unresolved: Vec<String>,
    /// Registered namespaces that accounted for at least one term.
    pub namespaces_used: Vec<String>,
    /// Whether any RDF face was parsed at all.
    pub faces_probed: bool,
}

/// Whether the action `(id, verb)` is in `list`.
pub open spec fn has_action(list: Seq<(String, Verb)>, id: Seq<char>, verb: Verb) -> bool {
    exists|i: int| 0 <= i < list.len() && #[trigger] list[i].0@ == id && list[i].1 == verb
}

/// Whether `list` holds an action of `id` with `verb`, or with any verb when
/// `verb` is `None`.
pub open spec fn has_any_action(list: Seq<(String, Verb)>, id: Seq<char>, verb: Option<Verb>) -> bool {
    exists|i: int|
        0 <= i < list.len() && #[trigger] list[i].0@ == id && match verb {
            Some(v) => list[i].1 == v,
            None => true,
        }
}

/// The verbs of `id`'s actions in `list`, in order.
pub open spec fn verbs_in(list: Seq<(String, Verb)>, id: Seq<char>) -> Seq<Verb>
    decreases list.len(),
{
    if list.len() == 0 {
        Seq::empty()
    } else {
        verbs_in(list.drop_last(), id) + if list.last().0@ == id {
            seq![list.last().1]
        } else {
            Seq::empty()
        }
    }
}

/// Whether every action of `id` the walk saw declared was opted out.
pub open spec fn wholly_opted_out(c: Coverage, id: Seq<char>) -> bool {
    verbs_in(c.actions@, id).len() > 0 && forall|k: int|
        0 <= k < verbs_in(c.actions@, id).len() ==> has_action(
            c.opted_out@,
            id,
            #[trigger] verbs_in(c.actions@, id)[k],
        )
}

/// The variables recorded for `id`, if any.
pub open spec fn vars_of(vars: Seq<(String, Vec<String>)>, id: Seq<char>) -> Option<Seq<Seq<char>>>
    decreases vars.len(),
{
    if vars.len() == 0 {
        None
    } else if vars[0].0@ == id {
        Some(views(vars[0].1@))
    } else {
        vars_of(vars.drop_first(), id)
    }
}

/// Whether some verb of `verbs` is cacheable.
pub open spec fn any_cacheable(verbs: Seq<Verb>) -> bool {
    exists|i: int| 0 <= i < verbs.len() && cacheable_verb(#[trigger] verbs[i])
}

/// Whether some verb of `verbs` is mutating.
pub open spec fn any_mutating(verbs: Seq<Verb>) -> bool {
    exists|i: int| 0 <= i < verbs.len() && mutating_verb(#[trigger] verbs[i])
}

/// `it declares source, exists` / `it declares no action`.
pub open spec fn verb_list(verbs: Seq<Verb>) -> Seq<char> {
    if verbs.len() == 0 {
        "it declares no action"@
    } else {
        "it declares "@ + joined(verbs.map_values(|v: Verb| verb_label(v)), ", "@)
    }
}

/// Why `check` could not run for `id`, structurally — `None` when it could.
/// `waivers` says whether a per-check waiver counts as a reason.
pub open spec fn unreachable(s: Suite, c: Coverage, id: Seq<char>, check: Check, waivers: bool) -> Option<
    Seq<char>,
> {
    if !listed(c.walked@, id) {
        Some(
            "the walk reached no endpoint with that id (the id is the `Description::id`, not the bound IRI)"@,
        )
    } else if !s.checks@.contains(check) {
        Some(check_label(check) + " is not selected (`Suite::checks`), so it is already skipped everywhere"@)
    } else if waivers && waived(s.opt_out_checks@, id, check) {
        Some(check_label(check) + " is waived for it by a `Suite::opt_out_check`"@)
    } else if check_invokes(check) && wholly_opted_out(c, id) {
        Some("every action of it is opted out (`Suite::opt_out`), and this check invokes"@)
    } else if check == Check::Cacheable && !any_cacheable(verbs_in(c.actions@, id)) {
        Some(
            "it declares no cacheable verb ("@ + verb_list(verbs_in(c.actions@, id))
                + "), and CACHEABLE returns early on a mutating one"@,
        )
    } else if check == Check::Authority && !any_mutating(verbs_in(c.actions@, id)) {
        Some(
            "it declares no mutating verb ("@ + verb_list(verbs_in(c.actions@, id))
                + "), and AUTHORITY looks only at what a `Sink` or a `Delete` did under no grants"@,
        )
    } else if (check == Check::SkolemRdf || check == Check::Vocabulary) && !listed(c.rdf_faces@, id) {
        Some("it declares no RDF face, and the graph checks probe declared RDF outputs only"@)
    } else {
        None
    }
}

/// Why `CACHEABLE` never ran for `id`.
pub open spec fn why_no_cacheable(s: Suite, c: Coverage, id: Seq<char>) -> Seq<char> {
    match unreachable(s, c, id, Check::Cacheable, true) {
        Some(r) => r,
        None => "CACHEABLE ran for no action of it"@,
    }
}

// ----- membership -----------------------------------------------------------------

/// Whether `(id, verb)` is in `list`.
fn holds_action(list: &Vec<(String, Verb)>, id: &str, verb: Verb) -> (r: bool)
    ensures
        r == has_action(list@, id@, verb),
{
    let mut i: usize = 0;
    while i < list.len()
        invariant
            i <= list@.len(),
            forall|j: int| 0 <= j < i ==> !(#[trigger] list@[j].0@ == id@ && list@[j].1 == verb),
        decreases list@.len() - i,
    {
        if list[i].1 == verb && same(list[i].0.as_str(), id) {
            return true;
        }
        i = i + 1;
    }
    false
}

/// Whether `list` holds an action of `id` with `verb` (any verb for `None`).
fn holds_any_action(list: &Vec<(String, Verb)>, id: &str, verb: Option<Verb>) -> (r: bool)
    ensures
        r == has_any_action(list@, id@, verb),
{
    let mut i: usize = 0;
    while i < list.len()
        invariant
            i <= list@.len(),
            forall|j: int|
                0 <= j < i ==> !(#[trigger] list@[j].0@ == id@ && match verb {
                    Some(v) => list@[j].1 == v,
                    None => true,
                }),
        decreases list@.len() - i,
    {
        let verb_matches = match verb {
            Some(v) => list[i].1 == v,
            None => true,
        };
        if verb_matches && same(list[i].0.as_str(), id) {
            return true;
        }
        i = i + 1;
    }
    false
}

/// The verbs of `id`'s actions in `list`, in order.
fn verbs_of(list: &Vec<(String, Verb)>, id: &str) -> (r: Vec<Verb>)
    ensures
        r@ == verbs_in(list@, id@),
{
    let mut r: Vec<Verb> = Vec::new();
    let mut i: usize = 0;
    while i < list.len()
        invariant
            i <= list@.len(),
            r@ == verbs_in(list@.take(i as int), id@),
        decreases list@.len() - i,
    {
        proof {
            assert(list@.take(i + 1).drop_last() =~= list@.take(i as int));
            assert(list@.take(i + 1).last() == list@[i as int]);
        }
        if same(list[i].0.as_str(), id) {
            r.push(list[i].1);
        }
        proof {
            assert(r@ =~= verbs_in(list@.take(i + 1), id@));
        }
        i = i + 1;
    }
    assert(list@.take(list@.len() as int) =~= list@);
    r
}

/// The variables recorded for `id`, if any.
fn vars_for<'a>(vars: &'a Vec<(String, Vec<String>)>, id: &str) -> (r: Option<&'a Vec<String>>)
    ensures
        match r {
            Some(v) => vars_of(vars@, id@) == Some(views(v@)),
            None => vars_of(vars@, id@) is None,
        },
{
    let mut i: usize = 0;
    assert(vars@.skip(0) =~= vars@);
    while i < vars.len()
        invariant
            i <= vars@.len(),
            vars_of(vars@, id@) == vars_of(vars@.skip(i as int), id@),
        decreases vars@.len() - i,
    {
        proof {
            assert(vars@.skip(i as int)[0] == vars@[i as int]);
            assert(vars@.skip(i as int).drop_first() =~= vars@.skip(i + 1));
        }
        if same(vars[i].0.as_str(), id) {
            return Some(&vars[i].1);
        }
        i = i + 1;
    }
    None
}

/// The verb labels joined, after `it declares`.
fn verb_list_text(verbs: &Vec<Verb>) -> (r: String)
    ensures
        r@ == verb_list(verbs@),
{
    if verbs.len() == 0 {
        return owned("it declares no action");
    }
    let mut labels: Vec<String> = Vec::new();
    let mut i: usize = 0;
    while i < verbs.len()
        invariant
            i <= verbs@.len(),
            views(labels@) == verbs@.take(i as int).map_values(|v: Verb| verb_label(v)),
        decreases verbs@.len() - i,
    {
        let ghost before = views(labels@);
        let l = owned(verbs[i].label());
        labels.push(l);
        proof {
            assert(views(labels@) =~= before.push(verb_label(verbs@[i as int])));
            assert(verbs@.take(i + 1).map_values(|v: Verb| verb_label(v)) =~= verbs@.take(
                i as int,
            ).map_values(|v: Verb| verb_label(v)).push(verb_label(verbs@[i as int])));
        }
        i = i + 1;
    }
    assert(verbs@.take(verbs@.len() as int) =~= verbs@);
    let joined_labels = crate::text::join(&labels, ", ");
    let mut r = owned("it declares ");
    append(&mut r, joined_labels.as_str());
    r
}

/// Whether some verb of `verbs` is cacheable (or, with `mutating`, mutating).
fn some_verb(verbs: &Vec<Verb>, mutating: bool) -> (r: bool)
    ensures
        mutating ==> r == any_mutating(verbs@),
        !mutating ==> r == any_cacheable(verbs@),
{
    let mut i: usize = 0;
    while i < verbs.len()
        invariant
            i <= verbs@.len(),
            forall|j: int|
                0 <= j < i ==> !(if mutating {
                    mutating_verb(#[trigger] verbs@[j])
                } else {
                    cacheable_verb(verbs@[j])
                }),
        decreases verbs@.len() - i,
    {
        let hit = if mutating { verbs[i].is_mutating() } else { verbs[i].is_cacheable() };
        if hit {
            proof {
                if mutating {
                    assert(mutating_verb(verbs@[i as int]));
                } else {
                    assert(cacheable_verb(verbs@[i as int]));
                }
            }
            return true;
        }
        i = i + 1;
    }
    false
}

impl Coverage {
    /// Nothing covered yet.
    pub fn new() -> (c: Coverage)
        ensures
            c.walked@.len() == 0,
            c.actions@.len() == 0,
            c.opted_out@.len() == 0,
            c.rdf_faces@.len() == 0,
            c.vars@.len() == 0,
            c.cacheable_ran@.len() == 0,
            c.pure_consulted@.len() == 0,
            c.cacheable_unresolved@.len() == 0,
            c.namespaces_used@.len() == 0,
            !c.faces_probed,
    {
        Coverage {
            walked: Vec::new(),
            actions: Vec::new(),
            opted_out: Vec::new(),
            rdf_faces: Vec::new(),
            vars: Vec::new(),
            cacheable_ran: Vec::new(),
            pure_consulted: Vec::new(),
            cacheable_unresolved: Vec::new(),
            namespaces_used: Vec::new(),
            faces_probed: false,
        }
    }

    /// Whether every action of `id` the walk saw declared was opted out.
    fn wholly_opted_out(&self, id: &str) -> (r: bool)
        ensures
            r == wholly_opted_out(*self, id@),
    {
        let verbs = verbs_of(&self.actions, id);
        if verbs.len() == 0 {
            return false;
        }
        let mut i: usize = 0;
        while i < verbs.len()
            invariant
                i <= verbs@.len(),
                verbs@ == verbs_in(self.actions@, id@),
                forall|k: int| 0 <= k < i ==> has_action(self.opted_out@, id@, #[trigger] verbs@[k]),
            decreases verbs@.len() - i,
        {
            if !holds_action(&self.opted_out, id, verbs[i]) {
                return false;
            }
            i = i + 1;
        }
        true
    }

    /// Why `check` could not run for `id`, structurally — `None` when it could.
    fn unreachable(&self, s: &Suite, id: &str, check: Check, waivers: bool) -> (r: Option<String>)
        ensures
            match r {
                Some(x) => unreachable(*s, *self, id@, check, waivers) == Some(x@),
                None => unreachable(*s, *self, id@, check, waivers) is None,
            },
    {
        if !is_listed(&self.walked, id) {
            return Some(
                owned(
                    "the walk reached no endpoint with that id (the id is the `Description::id`, not the bound IRI)",
                ),
            );
        }
        if !s.checks.contains(check) {
            let mut r = owned(check.label());
            append(&mut r, " is not selected (`Suite::checks`), so it is already skipped everywhere");
            return Some(r);
        }
        if waivers && !s.runs(id, check) {
            let mut r = owned(check.label());
            append(&mut r, " is waived for it by a `Suite::opt_out_check`");
            return Some(r);
        }
        if check.invokes() && self.wholly_opted_out(id) {
            return Some(
                owned("every action of it is opted out (`Suite::opt_out`), and this check invokes"),
            );
        }
        let verbs = verbs_of(&self.actions, id);
        if check == Check::Cacheable && !some_verb(&verbs, false) {
            let l = verb_list_text(&verbs);
            let mut r = owned("it declares no cacheable verb (");
            append(&mut r, l.as_str());
            append(&mut r, "), and CACHEABLE returns early on a mutating one");
            return Some(r);
        }
        if check == Check::Authority && !some_verb(&verbs, true) {
            let l = verb_list_text(&verbs);
            let mut r = owned("it declares no mutating verb (");
            append(&mut r, l.as_str());
            append(
                &mut r,
                "), and AUTHORITY looks only at what a `Sink` or a `Delete` did under no grants",
            );
            return Some(r);
        }
        if (check == Check::SkolemRdf || check == Check::Vocabulary) && !is_listed(&self.rdf_faces, id) {
            return Some(
                owned("it declares no RDF face, and the graph checks probe declared RDF outputs only"),
            );
        }
        None
    }

    /// Why `CACHEABLE` never ran for `id`.
    fn why_no_cacheable(&self, s: &Suite, id: &str) -> (r: String)
        ensures
            r@ == why_no_cacheable(*s, *self, id@),
    {
        match self.unreachable(s, id, Check::Cacheable, true) {
            Some(r) => r,
            None => owned("CACHEABLE ran for no action of it"),
        }
    }
}


// ----- DECLARATIONS -----------------------------------------------------------------

/// An inert-declaration finding, unless `DECLARATIONS` is unselected or waived for
/// the id.
pub open spec fn inert_line(s: Suite, id: Seq<char>, detail: Seq<char>) -> Seq<FindingView> {
    if runs(s, id, Check::Declarations) {
        seq![(id, None::<Verb>, Check::Declarations, detail)]
    } else {
        Seq::empty()
    }
}

/// The detail for a `live` or `cacheable` declaration nothing held the endpoint to.
pub open spec fn unheld_detail(live: bool, id: Seq<char>, why: Seq<char>) -> Seq<char> {
    if live {
        "declared live (`Suite::live`) but nothing held it to it: "@ + why
            + ". The report prints `declared live: "@ + id + "`, which reads as a check that ran"@
    } else {
        "declared cacheable (`Suite::cacheable`) but nothing held it to it: "@ + why
            + ". The report prints `declared cacheable: "@ + id + "`, which reads as a check that ran"@
    }
}

/// What the `live` (or `cacheable`) declarations of `ids` are found to be: inert
/// where `CACHEABLE` never ran for the id.
pub open spec fn unheld(s: Suite, c: Coverage, ids: Seq<String>, live: bool) -> Seq<FindingView>
    decreases ids.len(),
{
    if ids.len() == 0 {
        Seq::empty()
    } else {
        unheld(s, c, ids.drop_last(), live) + if listed(c.cacheable_ran@, ids.last()@) {
            Seq::empty()
        } else {
            inert_line(
                s,
                ids.last()@,
                unheld_detail(live, ids.last()@, why_no_cacheable(s, c, ids.last()@)),
            )
        }
    }
}

/// Why a `pure` declaration was never consulted.
pub open spec fn why_not_consulted(s: Suite, c: Coverage, id: Seq<char>) -> Seq<char> {
    if listed(c.cacheable_ran@, id) {
        "no action of it came back cacheable, so the golden-thread rule it exempts never applied"@
    } else {
        why_no_cacheable(s, c, id)
    }
}

/// The detail for a `pure` declaration nothing consulted.
pub open spec fn unconsulted_detail(why: Seq<char>) -> Seq<char> {
    "declared pure (`Suite::pure`) but nothing consulted it: "@ + why
        + ". `pure` exempts a CACHEABLE result from the empty-golden-thread finding and does nothing else"@
}

/// What the `pure` declarations of `ids` are found to be.
pub open spec fn unconsulted(s: Suite, c: Coverage, ids: Seq<String>) -> Seq<FindingView>
    decreases ids.len(),
{
    if ids.len() == 0 {
        Seq::empty()
    } else {
        unconsulted(s, c, ids.drop_last()) + if listed(c.pure_consulted@, ids.last()@) || listed(
            c.cacheable_unresolved@,
            ids.last()@,
        ) {
            Seq::empty()
        } else {
            inert_line(s, ids.last()@, unconsulted_detail(why_not_consulted(s, c, ids.last()@)))
        }
    }
}

/// Why a registered namespace accounted for no term.
pub open spec fn why_unused(s: Suite, c: Coverage) -> Seq<char> {
    if !s.checks@.contains(Check::Vocabulary) {
        "VOCABULARY is not selected (`Suite::checks`)"@
    } else if !c.faces_probed {
        "no RDF face was probed at all"@
    } else {
        "no term in any probed face lies under it, or the terms under it are defined without it"@
    }
}

/// The detail for a registered namespace that accounted for no term.
pub open spec fn unused_namespace_detail(ns: Seq<char>, why: Seq<char>) -> Seq<char> {
    "registered namespace `"@ + ns + "` (`Suite::namespace`) accounted for no term: "@ + why
        + ". A registration waives every term under it forever, so an unused one is scope nobody needs — drop it, or narrow it to the prefix the module really serves"@
}

/// What the registered namespaces `nss` are found to be.
pub open spec fn unused_namespaces(s: Suite, c: Coverage, nss: Seq<String>) -> Seq<FindingView>
    decreases nss.len(),
{
    if nss.len() == 0 {
        Seq::empty()
    } else {
        unused_namespaces(s, c, nss.drop_last()) + if listed(c.namespaces_used@, nss.last()@) {
            Seq::empty()
        } else {
            inert_line(s, SUITE@, unused_namespace_detail(nss.last()@, why_unused(s, c)))
        }
    }
}

/// How the variables an id is bound with read in a finding.
pub open spec fn bound_list(vars: Option<Seq<Seq<char>>>) -> Seq<char> {
    match vars {
        Some(vs) => if vs.len() == 0 {
            "it is bound at an exact IRI"@
        } else {
            quoted(vs)
        },
        None => "it is bound at an exact IRI"@,
    }
}

/// Whether `var` is a template variable of a pattern `id` is bound at.
pub open spec fn known_var(c: Coverage, id: Seq<char>, var: Seq<char>) -> bool {
    match vars_of(c.vars@, id) {
        Some(vs) => vs.contains(var),
        None => false,
    }
}

/// The detail for a fixture binding no variable takes.
pub open spec fn stray_binding_detail(c: Coverage, f: Fixture, var: Seq<char>) -> Seq<char> {
    "fixture `"@ + fixture_text(f) + "` binds `"@ + var
        + "`, which is not a template variable of any pattern `"@ + f.id@ + "` is bound at ("@
        + bound_list(vars_of(c.vars@, f.id@))
        + "): the binding was ignored and the IRI was formed without it"@
}

/// What the first `n` bindings of a fixture are found to be.
pub open spec fn stray_bindings(s: Suite, c: Coverage, f: Fixture, n: int) -> Seq<FindingView>
    decreases n,
{
    if n <= 0 {
        Seq::empty()
    } else {
        stray_bindings(s, c, f, n - 1) + if known_var(c, f.id@, f.bindings@[n - 1].0@) {
            Seq::empty()
        } else {
            inert_line(s, f.id@, stray_binding_detail(c, f, f.bindings@[n - 1].0@))
        }
    }
}

/// The detail for a fixture whose id the walk never reached.
pub open spec fn unused_fixture_detail(f: Fixture) -> Seq<char> {
    "fixture `"@ + fixture_text(f)
        + "` was never used: the walk reached no endpoint with that id (the first field is the `Description::id`, not the bound IRI)"@
}

/// The detail for fixture arguments for an action the id does not declare.
pub open spec fn undeclared_action_detail(c: Coverage, f: Fixture) -> Seq<char> {
    "fixture `"@ + fixture_text(f) + "` supplies arguments for a "@ + verb_label(f.verb)
        + " action `"@ + f.id@ + "` does not declare ("@ + verb_list(verbs_in(c.actions@, f.id@))
        + "): they were never used"@
}

/// The detail for fixture arguments for an opted-out action.
pub open spec fn excluded_action_detail(f: Fixture) -> Seq<char> {
    "fixture `"@ + fixture_text(f)
        + "` supplies arguments for an action excluded by `Suite::opt_out`: they were never used"@
}

/// What one fixture is found to be.
pub open spec fn fixture_inert(s: Suite, c: Coverage, f: Fixture) -> Seq<FindingView> {
    if !listed(c.walked@, f.id@) {
        inert_line(s, f.id@, unused_fixture_detail(f))
    } else {
        stray_bindings(s, c, f, f.bindings@.len() as int) + if f.args@.len() == 0 {
            Seq::empty()
        } else if !has_action(c.actions@, f.id@, f.verb) {
            inert_line(s, f.id@, undeclared_action_detail(c, f))
        } else if has_action(c.opted_out@, f.id@, f.verb) {
            inert_line(s, f.id@, excluded_action_detail(f))
        } else {
            Seq::empty()
        }
    }
}

/// What the fixtures `fs` are found to be.
pub open spec fn fixtures_inert(s: Suite, c: Coverage, fs: Seq<Fixture>) -> Seq<FindingView>
    decreases fs.len(),
{
    if fs.len() == 0 {
        Seq::empty()
    } else {
        fixtures_inert(s, c, fs.drop_last()) + fixture_inert(s, c, fs.last())
    }
}

/// Why an opt-out excluded nothing.
pub open spec fn why_excluded_nothing(c: Coverage, id: Seq<char>, verb: Option<Verb>) -> Seq<char> {
    if !listed(c.walked@, id) {
        "the walk reached no endpoint with that id"@
    } else {
        match verb {
            Some(v) => "`"@ + id + "` declares no "@ + verb_label(v) + " action ("@ + verb_list(
                verbs_in(c.actions@, id),
            ) + ")"@,
            None => "`"@ + id + "` declares no action at all"@,
        }
    }
}

/// What the opt-outs `os` are found to be: inert where they excluded nothing.
pub open spec fn idle_opt_outs(s: Suite, c: Coverage, os: Seq<crate::report::OptedOut>) -> Seq<FindingView>
    decreases os.len(),
{
    if os.len() == 0 {
        Seq::empty()
    } else {
        idle_opt_outs(s, c, os.drop_last()) + if has_any_action(
            c.opted_out@,
            os.last().endpoint@,
            os.last().verb,
        ) {
            Seq::empty()
        } else {
            inert_line(
                s,
                os.last().endpoint@,
                "opted out of the invoking checks ("@ + os.last().reason@ + ") but excluded nothing: "@
                    + why_excluded_nothing(c, os.last().endpoint@, os.last().verb),
            )
        }
    }
}

/// What the waivers `ws` are found to be: inert where the check they waive could
/// not have run for the id anyway, the waiver itself discounted.
pub open spec fn idle_waivers(s: Suite, c: Coverage, ws: Seq<crate::report::OptedOutCheck>) -> Seq<
    FindingView,
>
    decreases ws.len(),
{
    if ws.len() == 0 {
        Seq::empty()
    } else {
        idle_waivers(s, c, ws.drop_last()) + match unreachable(
            s,
            c,
            ws.last().endpoint@,
            ws.last().check,
            false,
        ) {
            None => Seq::empty(),
            Some(why) => inert_line(
                s,
                ws.last().endpoint@,
                "waived "@ + check_label(ws.last().check) + " ("@ + ws.last().reason@
                    + ") but that check could not have run for it anyway: "@ + why,
            ),
        }
    }
}

/// Every declaration the module made, against what the walk covered: one finding
/// per declaration the walk never consulted.
pub open spec fn declaration_findings(s: Suite, c: Coverage) -> Seq<FindingView> {
    unheld(s, c, s.live@, true) + unheld(s, c, s.cacheable@, false) + unconsulted(s, c, s.pure@)
        + unused_namespaces(s, c, s.namespaces@) + fixtures_inert(s, c, s.fixtures@) + idle_opt_outs(
        s,
        c,
        s.opt_outs@,
    ) + idle_waivers(s, c, s.opt_out_checks@)
}

/// Records one inert-declaration finding, unless `DECLARATIONS` is unselected or
/// waived for the id.
fn inert(s: &Suite, findings: &mut Vec<crate::report::Finding>, id: &str, detail: String)
    ensures
        fviews(final(findings)@) == fviews(old(findings)@) + inert_line(*s, id@, detail@),
{
    let ghost f0 = fviews(findings@);
    if s.runs(id, Check::Declarations) {
        push_finding(findings, id, None, Check::Declarations, detail);
    }
    assert(fviews(findings@) =~= f0 + inert_line(*s, id@, detail@));
}

/// Appends the findings on the `live` (or `cacheable`) declarations.
fn check_unheld(s: &Suite, c: &Coverage, ids: &Vec<String>, live: bool, findings: &mut Vec<crate::report::Finding>)
    ensures
        fviews(final(findings)@) == fviews(old(findings)@) + unheld(*s, *c, ids@, live),
{
    let ghost f0 = fviews(findings@);
    let mut i: usize = 0;
    assert(ids@.take(0) =~= Seq::<String>::empty());
    assert(f0 + Seq::<FindingView>::empty() =~= f0);
    while i < ids.len()
        invariant
            i <= ids@.len(),
            fviews(findings@) == f0 + unheld(*s, *c, ids@.take(i as int), live),
        decreases ids@.len() - i,
    {
        let id = ids[i].as_str();
        let ghost fb = fviews(findings@);
        proof {
            assert(ids@.take(i + 1).drop_last() =~= ids@.take(i as int));
            assert(ids@.take(i + 1).last() == ids@[i as int]);
        }
        if !is_listed(&c.cacheable_ran, id) {
            let why = c.why_no_cacheable(s, id);
            let mut d = owned(
                if live {
                    "declared live (`Suite::live`) but nothing held it to it: "
                } else {
                    "declared cacheable (`Suite::cacheable`) but nothing held it to it: "
                },
            );
            append(&mut d, why.as_str());
            append(
                &mut d,
                if live {
                    ". The report prints `declared live: "
                } else {
                    ". The report prints `declared cacheable: "
                },
            );
            append(&mut d, id);
            append(&mut d, "`, which reads as a check that ran");
            inert(s, findings, id, d);
        } else {
            assert(fb + Seq::<FindingView>::empty() =~= fb);
        }
        assert(fviews(findings@) =~= f0 + unheld(*s, *c, ids@.take(i + 1), live));
        i = i + 1;
    }
    assert(ids@.take(ids@.len() as int) =~= ids@);
}

/// Appends the findings on the `pure` declarations.
fn check_unconsulted(s: &Suite, c: &Coverage, findings: &mut Vec<crate::report::Finding>)
    ensures
        fviews(final(findings)@) == fviews(old(findings)@) + unconsulted(*s, *c, s.pure@),
{
    let ghost f0 = fviews(findings@);
    let ids = &s.pure;
    let mut i: usize = 0;
    assert(ids@.take(0) =~= Seq::<String>::empty());
    assert(f0 + Seq::<FindingView>::empty() =~= f0);
    while i < ids.len()
        invariant
            i <= ids@.len(),
            ids == &s.pure,
            fviews(findings@) == f0 + unconsulted(*s, *c, ids@.take(i as int)),
        decreases ids@.len() - i,
    {
        let id = ids[i].as_str();
        let ghost fb = fviews(findings@);
        proof {
            assert(ids@.take(i + 1).drop_last() =~= ids@.take(i as int));
            assert(ids@.take(i + 1).last() == ids@[i as int]);
        }
        if !(is_listed(&c.pure_consulted, id) || is_listed(&c.cacheable_unresolved, id)) {
            let why = if is_listed(&c.cacheable_ran, id) {
                owned(
                    "no action of it came back cacheable, so the golden-thread rule it exempts never applied",
                )
            } else {
                c.why_no_cacheable(s, id)
            };
            let mut d = owned("declared pure (`Suite::pure`) but nothing consulted it: ");
            append(&mut d, why.as_str());
            append(
                &mut d,
                ". `pure` exempts a CACHEABLE result from the empty-golden-thread finding and does nothing else",
            );
            inert(s, findings, id, d);
        } else {
            assert(fb + Seq::<FindingView>::empty() =~= fb);
        }
        assert(fviews(findings@) =~= f0 + unconsulted(*s, *c, ids@.take(i + 1)));
        i = i + 1;
    }
    assert(ids@.take(ids@.len() as int) =~= ids@);
}

/// Appends the findings on the registered namespaces.
fn check_namespaces(s: &Suite, c: &Coverage, findings: &mut Vec<crate::report::Finding>)
    ensures
        fviews(final(findings)@) == fviews(old(findings)@) + unused_namespaces(*s, *c, s.namespaces@),
{
    let ghost f0 = fviews(findings@);
    let nss = &s.namespaces;
    let mut i: usize = 0;
    assert(nss@.take(0) =~= Seq::<String>::empty());
    assert(f0 + Seq::<FindingView>::empty() =~= f0);
    while i < nss.len()
        invariant
            i <= nss@.len(),
            nss == &s.namespaces,
            fviews(findings@) == f0 + unused_namespaces(*s, *c, nss@.take(i as int)),
        decreases nss@.len() - i,
    {
        let ns = nss[i].as_str();
        let ghost fb = fviews(findings@);
        proof {
            assert(nss@.take(i + 1).drop_last() =~= nss@.take(i as int));
            assert(nss@.take(i + 1).last() == nss@[i as int]);
        }
        if !is_listed(&c.namespaces_used, ns) {
            let why = if !s.checks.contains(Check::Vocabulary) {
                "VOCABULARY is not selected (`Suite::checks`)"
            } else if !c.faces_probed {
                "no RDF face was probed at all"
            } else {
                "no term in any probed face lies under it, or the terms under it are defined without it"
            };
            let mut d = owned("registered namespace `");
            append(&mut d, ns);
            append(&mut d, "` (`Suite::namespace`) accounted for no term: ");
            append(&mut d, why);
            append(
                &mut d,
                ". A registration waives every term under it forever, so an unused one is scope nobody needs — drop it, or narrow it to the prefix the module really serves",
            );
            inert(s, findings, SUITE, d);
        } else {
            assert(fb + Seq::<FindingView>::empty() =~= fb);
        }
        assert(fviews(findings@) =~= f0 + unused_namespaces(*s, *c, nss@.take(i + 1)));
        i = i + 1;
    }
    assert(nss@.take(nss@.len() as int) =~= nss@);
}

/// How the variables an id is bound with read in a finding.
fn bound_list_text(vars: Option<&Vec<String>>) -> (r: String)
    ensures
        r@ == bound_list(
            match vars {
                Some(v) => Some(views(v@)),
                None => None,
            },
        ),
{
    match vars {
        Some(v) => if v.len() == 0 {
            owned("it is bound at an exact IRI")
        } else {
            crate::statics::quote_all(v)
        },
        None => owned("it is bound at an exact IRI"),
    }
}

/// Appends the findings on one fixture.
fn check_fixture(s: &Suite, c: &Coverage, f: &Fixture, findings: &mut Vec<crate::report::Finding>)
    ensures
        fviews(final(findings)@) == fviews(old(findings)@) + fixture_inert(*s, *c, *f),
{
    let ghost f0 = fviews(findings@);
    let id = f.id.as_str();
    let text = f.text();
    if !is_listed(&c.walked, id) {
        let mut d = owned("fixture `");
        append(&mut d, text.as_str());
        append(
            &mut d,
            "` was never used: the walk reached no endpoint with that id (the first field is the `Description::id`, not the bound IRI)",
        );
        inert(s, findings, id, d);
        return;
    }
    let vars = vars_for(&c.vars, id);
    let mut i: usize = 0;
    assert(f0 + Seq::<FindingView>::empty() =~= f0);
    while i < f.bindings.len()
        invariant
            i <= f.bindings@.len(),
            id@ == f.id@,
            text@ == fixture_text(*f),
            match vars {
                Some(v) => vars_of(c.vars@, id@) == Some(views(v@)),
                None => vars_of(c.vars@, id@) is None,
            },
            fviews(findings@) == f0 + stray_bindings(*s, *c, *f, i as int),
        decreases f.bindings@.len() - i,
    {
        let var = f.bindings[i].0.as_str();
        let known = match vars {
            Some(v) => is_listed(v, var),
            None => false,
        };
        let ghost fb = fviews(findings@);
        proof {
            if let Some(v) = vars {
                assert(known == views(v@).contains(var@)) by {
                    if known {
                        let k = choose|k: int| 0 <= k < v@.len() && #[trigger] v@[k]@ == var@;
                        assert(views(v@)[k] == var@);
                    }
                    if views(v@).contains(var@) {
                        let k = choose|k: int| 0 <= k < views(v@).len() && views(v@)[k] == var@;
                        assert(v@[k]@ == var@);
                    }
                }
            }
        }
        if !known {
            let l = bound_list_text(vars);
            let mut d = owned("fixture `");
            append(&mut d, text.as_str());
            append(&mut d, "` binds `");
            append(&mut d, var);
            append(&mut d, "`, which is not a template variable of any pattern `");
            append(&mut d, id);
            append(&mut d, "` is bound at (");
            append(&mut d, l.as_str());
            append(&mut d, "): the binding was ignored and the IRI was formed without it");
            inert(s, findings, id, d);
        } else {
            assert(fb + Seq::<FindingView>::empty() =~= fb);
        }
        i = i + 1;
    }
    let ghost fm = fviews(findings@);
    if f.args.len() == 0 {
        assert(fviews(findings@) =~= f0 + fixture_inert(*s, *c, *f));
        return;
    }
    if !holds_action(&c.actions, id, f.verb) {
        let verbs = verbs_of(&c.actions, id);
        let l = verb_list_text(&verbs);
        let mut d = owned("fixture `");
        append(&mut d, text.as_str());
        append(&mut d, "` supplies arguments for a ");
        append(&mut d, f.verb.label());
        append(&mut d, " action `");
        append(&mut d, id);
        append(&mut d, "` does not declare (");
        append(&mut d, l.as_str());
        append(&mut d, "): they were never used");
        inert(s, findings, id, d);
    } else if holds_action(&c.opted_out, id, f.verb) {
        let mut d = owned("fixture `");
        append(&mut d, text.as_str());
        append(
            &mut d,
            "` supplies arguments for an action excluded by `Suite::opt_out`: they were never used",
        );
        inert(s, findings, id, d);
    }
    assert(fviews(findings@) =~= f0 + fixture_inert(*s, *c, *f));
}

/// Appends the findings on the fixtures.
fn check_fixtures(s: &Suite, c: &Coverage, findings: &mut Vec<crate::report::Finding>)
    ensures
        fviews(final(findings)@) == fviews(old(findings)@) + fixtures_inert(*s, *c, s.fixtures@),
{
    let ghost f0 = fviews(findings@);
    let fs = &s.fixtures;
    let mut i: usize = 0;
    assert(fs@.take(0) =~= Seq::<Fixture>::empty());
    assert(f0 + Seq::<FindingView>::empty() =~= f0);
    while i < fs.len()
        invariant
            i <= fs@.len(),
            fs == &s.fixtures,
            fviews(findings@) == f0 + fixtures_inert(*s, *c, fs@.take(i as int)),
        decreases fs@.len() - i,
    {
        proof {
            assert(fs@.take(i + 1).drop_last() =~= fs@.take(i as int));
            assert(fs@.take(i + 1).last() == fs@[i as int]);
        }
        check_fixture(s, c, &fs[i], findings);
        assert(fviews(findings@) =~= f0 + fixtures_inert(*s, *c, fs@.take(i + 1)));
        i = i + 1;
    }
    assert(fs@.take(fs@.len() as int) =~= fs@);
}

/// Appends the findings on the opt-outs.
fn check_opt_outs(s: &Suite, c: &Coverage, findings: &mut Vec<crate::report::Finding>)
    ensures
        fviews(final(findings)@) == fviews(old(findings)@) + idle_opt_outs(*s, *c, s.opt_outs@),
{
    let ghost f0 = fviews(findings@);
    let os = &s.opt_outs;
    let mut i: usize = 0;
    assert(os@.take(0) =~= Seq::<crate::report::OptedOut>::empty());
    assert(f0 + Seq::<FindingView>::empty() =~= f0);
    while i < os.len()
        invariant
            i <= os@.len(),
            os == &s.opt_outs,
            fviews(findings@) == f0 + idle_opt_outs(*s, *c, os@.take(i as int)),
        decreases os@.len() - i,
    {
        let o = &os[i];
        let id = o.endpoint.as_str();
        let ghost fb = fviews(findings@);
        proof {
            assert(os@.take(i + 1).drop_last() =~= os@.take(i as int));
            assert(os@.take(i + 1).last() == os@[i as int]);
        }
        if !holds_any_action(&c.opted_out, id, o.verb) {
            let why = if !is_listed(&c.walked, id) {
                owned("the walk reached no endpoint with that id")
            } else {
                match o.verb {
                    Some(v) => {
                        let verbs = verbs_of(&c.actions, id);
                        let l = verb_list_text(&verbs);
                        let mut w = owned("`");
                        append(&mut w, id);
                        append(&mut w, "` declares no ");
                        append(&mut w, v.label());
                        append(&mut w, " action (");
                        append(&mut w, l.as_str());
                        append(&mut w, ")");
                        w
                    },
                    None => {
                        let mut w = owned("`");
                        append(&mut w, id);
                        append(&mut w, "` declares no action at all");
                        w
                    },
                }
            };
            let mut d = owned("opted out of the invoking checks (");
            append(&mut d, o.reason.as_str());
            append(&mut d, ") but excluded nothing: ");
            append(&mut d, why.as_str());
            inert(s, findings, id, d);
        } else {
            assert(fb + Seq::<FindingView>::empty() =~= fb);
        }
        assert(fviews(findings@) =~= f0 + idle_opt_outs(*s, *c, os@.take(i + 1)));
        i = i + 1;
    }
    assert(os@.take(os@.len() as int) =~= os@);
}

/// Appends the findings on the per-check waivers.
fn check_waivers(s: &Suite, c: &Coverage, findings: &mut Vec<crate::report::Finding>)
    ensures
        fviews(final(findings)@) == fviews(old(findings)@) + idle_waivers(*s, *c, s.opt_out_checks@),
{
    let ghost f0 = fviews(findings@);
    let ws = &s.opt_out_checks;
    let mut i: usize = 0;
    assert(ws@.take(0) =~= Seq::<crate::report::OptedOutCheck>::empty());
    assert(f0 + Seq::<FindingView>::empty() =~= f0);
    while i < ws.len()
        invariant
            i <= ws@.len(),
            ws == &s.opt_out_checks,
            fviews(findings@) == f0 + idle_waivers(*s, *c, ws@.take(i as int)),
        decreases ws@.len() - i,
    {
        let w = &ws[i];
        let ghost fb = fviews(findings@);
        proof {
            assert(ws@.take(i + 1).drop_last() =~= ws@.take(i as int));
            assert(ws@.take(i + 1).last() == ws@[i as int]);
        }
        match c.unreachable(s, w.endpoint.as_str(), w.check, false) {
            None => {
                assert(fb + Seq::<FindingView>::empty() =~= fb);
            },
            Some(why) => {
                let mut d = owned("waived ");
                append(&mut d, w.check.label());
                append(&mut d, " (");
                append(&mut d, w.reason.as_str());
                append(&mut d, ") but that check could not have run for it anyway: ");
                append(&mut d, why.as_str());
                inert(s, findings, w.endpoint.as_str(), d);
            },
        }
        assert(fviews(findings@) =~= f0 + idle_waivers(*s, *c, ws@.take(i + 1)));
        i = i + 1;
    }
    assert(ws@.take(ws@.len() as int) =~= ws@);
}

/// Every declaration the module made, held against what the walk covered.
pub fn declaration_checks(s: &Suite, c: &Coverage, findings: &mut Vec<crate::report::Finding>)
    ensures
        fviews(final(findings)@) == fviews(old(findings)@) + declaration_findings(*s, *c),
{
    let ghost f0 = fviews(findings@);
    check_unheld(s, c, &s.live, true, findings);
    check_unheld(s, c, &s.cacheable, false, findings);
    check_unconsulted(s, c, findings);
    check_namespaces(s, c, findings);
    check_fixtures(s, c, findings);
    check_opt_outs(s, c, findings);
    check_waivers(s, c, findings);
    assert(fviews(findings@) =~= f0 + declaration_findings(*s, *c));
}


// ----- the variables an id is bound with --------------------------------------------

/// The variables recorded for `id`, as a set.
pub open spec fn var_set(vars: Seq<(String, Vec<String>)>, id: Seq<char>) -> Set<Seq<char>> {
    match vars_of(vars, id) {
        Some(vs) => vs.to_set(),
        None => Set::empty(),
    }
}

/// Whether every id's variables are kept in sorted order, each once.
pub open spec fn vars_sorted(vars: Seq<(String, Vec<String>)>) -> bool {
    forall|i: int| 0 <= i < vars.len() ==> ascending(views(#[trigger] vars[i].1@))
}

/// Replacing the first entry of an id replaces what that id has and nothing else.
proof fn lemma_vars_of_update(vars: Seq<(String, Vec<String>)>, i: int, e: (String, Vec<String>))
    requires
        0 <= i < vars.len(),
        e.0@ == vars[i].0@,
        forall|j: int| 0 <= j < i ==> #[trigger] vars[j].0@ != vars[i].0@,
    ensures
        forall|x: Seq<char>|
            #[trigger] vars_of(vars.update(i, e), x) == if x == vars[i].0@ {
                Some(views(e.1@))
            } else {
                vars_of(vars, x)
            },
    decreases i,
{
    let u = vars.update(i, e);
    if i > 0 {
        assert forall|j: int| 0 <= j < i - 1 implies #[trigger] vars.drop_first()[j].0@
            != vars.drop_first()[i - 1].0@ by {
            assert(vars.drop_first()[j] == vars[j + 1]);
        }
        lemma_vars_of_update(vars.drop_first(), i - 1, e);
        assert(u.drop_first() =~= vars.drop_first().update(i - 1, e));
        assert(vars.drop_first()[i - 1] == vars[i]);
        assert(u[0] == vars[0]);
        assert(vars[0].0@ != vars[i].0@);
    } else {
        assert(u.drop_first() =~= vars.drop_first());
        assert(u[0] == e);
    }
    assert forall|x: Seq<char>| #[trigger] vars_of(u, x) == (if x == vars[i].0@ {
        Some(views(e.1@))
    } else {
        vars_of(vars, x)
    }) by {
        if i > 0 {
            assert(vars_of(u.drop_first(), x) == vars_of(vars.drop_first().update(i - 1, e), x));
        }
    }
}

/// Adding an entry for an id with none gives it that entry's variables.
proof fn lemma_vars_of_push(vars: Seq<(String, Vec<String>)>, e: (String, Vec<String>))
    requires
        forall|j: int| 0 <= j < vars.len() ==> #[trigger] vars[j].0@ != e.0@,
    ensures
        forall|x: Seq<char>|
            #[trigger] vars_of(vars.push(e), x) == if x == e.0@ {
                Some(views(e.1@))
            } else {
                vars_of(vars, x)
            },
    decreases vars.len(),
{
    let u = vars.push(e);
    if vars.len() > 0 {
        assert forall|j: int| 0 <= j < vars.drop_first().len() implies #[trigger] vars.drop_first()[j].0@
            != e.0@ by {
            assert(vars.drop_first()[j] == vars[j + 1]);
        }
        lemma_vars_of_push(vars.drop_first(), e);
        assert(u.drop_first() =~= vars.drop_first().push(e));
        assert(u[0] == vars[0]);
        assert(vars[0].0@ != e.0@);
        assert forall|x: Seq<char>| #[trigger] vars_of(u, x) == (if x == e.0@ {
            Some(views(e.1@))
        } else {
            vars_of(vars, x)
        }) by {
            assert(vars_of(u.drop_first(), x) == vars_of(vars.drop_first().push(e), x));
        }
    } else {
        assert(u.drop_first() =~= Seq::<(String, Vec<String>)>::empty());
        assert(u[0] == e);
        assert forall|x: Seq<char>| #[trigger] vars_of(u, x) == (if x == e.0@ {
            Some(views(e.1@))
        } else {
            vars_of(vars, x)
        }) by {
            assert(vars_of(u.drop_first(), x) is None);
        }
    }
}

/// An id no entry names has no variables recorded.
proof fn lemma_vars_of_absent(vars: Seq<(String, Vec<String>)>, id: Seq<char>)
    requires
        forall|j: int| 0 <= j < vars.len() ==> #[trigger] vars[j].0@ != id,
    ensures
        vars_of(vars, id) is None,
    decreases vars.len(),
{
    if vars.len() > 0 {
        assert forall|j: int| 0 <= j < vars.drop_first().len() implies #[trigger] vars.drop_first()[j].0@
            != id by {
            assert(vars.drop_first()[j] == vars[j + 1]);
        }
        lemma_vars_of_absent(vars.drop_first(), id);
    }
}

/// Records the variables of a pattern `id` is bound at.
fn note_vars(vars: &mut Vec<(String, Vec<String>)>, id: &str, new_vars: &Vec<String>)
    requires
        vars_sorted(old(vars)@),
    ensures
        vars_sorted(final(vars)@),
        forall|x: Seq<char>|
            #[trigger] var_set(final(vars)@, x) == if x == id@ {
                var_set(old(vars)@, x).union(views(new_vars@).to_set())
            } else {
                var_set(old(vars)@, x)
            },
{
    let mut i: usize = 0;
    while i < vars.len()
        invariant
            i <= vars@.len(),
            forall|j: int| 0 <= j < i ==> #[trigger] vars@[j].0@ != id@,
        ensures
            i == vars@.len() || vars@[i as int].0@ == id@,
            forall|j: int| 0 <= j < i ==> #[trigger] vars@[j].0@ != id@,
        decreases vars@.len() - i,
    {
        if same(vars[i].0.as_str(), id) {
            break;
        }
        i = i + 1;
    }
    let found = i < vars.len();
    let mut inner: Vec<String> = if found {
        crate::probe::copy_all(&vars[i].1)
    } else {
        Vec::new()
    };
    let ghost base = views(inner@).to_set();
    proof {
        if !found {
            assert(views(inner@) =~= Seq::<Seq<char>>::empty());
            assert(base =~= Set::<Seq<char>>::empty());
        }
        assert(views(new_vars@).take(0).to_set() =~= Set::<Seq<char>>::empty());
        assert(base.union(Set::<Seq<char>>::empty()) =~= base);
    }
    let mut k: usize = 0;
    while k < new_vars.len()
        invariant
            k <= new_vars@.len(),
            ascending(views(inner@)),
            views(inner@).to_set() == base.union(views(new_vars@).take(k as int).to_set()),
        decreases new_vars@.len() - k,
    {
        insert_sorted(&mut inner, new_vars[k].clone());
        proof {
            assert(views(new_vars@).take(k + 1) =~= views(new_vars@).take(k as int).push(
                new_vars@[k as int]@,
            ));
            views(new_vars@).take(k as int).lemma_push_to_set_commute(new_vars@[k as int]@);
            assert(views(inner@).to_set() =~= base.union(views(new_vars@).take(k + 1).to_set()));
        }
        k = k + 1;
    }
    assert(views(new_vars@).take(new_vars@.len() as int) =~= views(new_vars@));
    let ghost old_vars = vars@;
    if found {
        let name = vars[i].0.clone();
        proof {
            lemma_vars_of_update(old_vars, i as int, (name, inner));
            lemma_vars_of_update(old_vars, i as int, old_vars[i as int]);
            assert(old_vars.update(i as int, old_vars[i as int]) =~= old_vars);
            assert(base == views(old_vars[i as int].1@).to_set());
        }
        let ghost e = (name, inner);
        vars.set(i, (name, inner));
        proof {
            assert(vars@ == old_vars.update(i as int, e));
            assert forall|j: int| 0 <= j < vars@.len() implies ascending(views(#[trigger] vars@[j].1@)) by {
                if j != i {
                    assert(vars@[j] == old_vars[j]);
                } else {
                    assert(vars@[j] == e);
                }
            }
            assert forall|x: Seq<char>| #[trigger] var_set(vars@, x) == (if x == id@ {
                var_set(old_vars, x).union(views(new_vars@).to_set())
            } else {
                var_set(old_vars, x)
            }) by {
                if x == id@ {
                    assert(vars_of(vars@, x) == Some(views(inner@)));
                    assert(vars_of(old_vars, x) == Some(views(old_vars[i as int].1@)));
                } else {
                    assert(vars_of(vars@, x) == vars_of(old_vars, x));
                }
            }
        }
    } else {
        let name = owned(id);
        proof {
            lemma_vars_of_push(old_vars, (name, inner));
        }
        vars.push((name, inner));
        proof {
            assert forall|j: int| 0 <= j < vars@.len() implies ascending(views(#[trigger] vars@[j].1@)) by {
                if j < old_vars.len() {
                    assert(vars@[j] == old_vars[j]);
                }
            }
            assert(Set::<Seq<char>>::empty().union(views(new_vars@).to_set()) =~= views(new_vars@).to_set());
            lemma_vars_of_absent(old_vars, id@);
            assert forall|x: Seq<char>| #[trigger] var_set(vars@, x) == (if x == id@ {
                var_set(old_vars, x).union(views(new_vars@).to_set())
            } else {
                var_set(old_vars, x)
            }) by {
                if x == id@ {
                    assert(vars_of(vars@, x) == Some(views(inner@)));
                } else {
                    assert(vars_of(vars@, x) == vars_of(old_vars, x));
                }
            }
        }
    }
}


// ----- the walk ------------------------------------------------------------------------

/// An action list as plain values.
pub open spec fn aviews(list: Seq<(String, Verb)>) -> Seq<(Seq<char>, Verb)> {
    list.map_values(|a: (String, Verb)| (a.0@, a.1))
}

/// `av` with `a` added at its end, unless it is already there.
pub open spec fn noted(av: Seq<(Seq<char>, Verb)>, a: (Seq<char>, Verb)) -> Seq<(Seq<char>, Verb)> {
    if av.contains(a) {
        av
    } else {
        av.push(a)
    }
}

/// `av` with every action of `specs` noted for `id`, in order.
pub open spec fn noted_actions(av: Seq<(Seq<char>, Verb)>, id: Seq<char>, specs: Seq<ActionSpec>) -> Seq<
    (Seq<char>, Verb),
>
    decreases specs.len(),
{
    if specs.len() == 0 {
        av
    } else {
        noted(noted_actions(av, id, specs.drop_last()), (id, specs.last().verb))
    }
}

/// `av` with every opted-out action of `specs` noted for `id`, in order.
pub open spec fn noted_exclusions(
    av: Seq<(Seq<char>, Verb)>,
    s: Suite,
    id: Seq<char>,
    specs: Seq<ActionSpec>,
) -> Seq<(Seq<char>, Verb)>
    decreases specs.len(),
{
    if specs.len() == 0 {
        av
    } else if excluded(s, id, specs.last().verb) {
        noted(noted_exclusions(av, s, id, specs.drop_last()), (id, specs.last().verb))
    } else {
        noted_exclusions(av, s, id, specs.drop_last())
    }
}

/// The actions of `specs` that are probed: those not opted out, in order.
pub open spec fn kept_specs(s: Suite, id: Seq<char>, specs: Seq<ActionSpec>) -> Seq<ActionSpec>
    decreases specs.len(),
{
    if specs.len() == 0 {
        Seq::empty()
    } else {
        kept_specs(s, id, specs.drop_last()) + if excluded(s, id, specs.last().verb) {
            Seq::empty()
        } else {
            seq![specs.last()]
        }
    }
}

/// Whether an action declares an RDF face among its outputs.
pub open spec fn rdf_output(spec: ActionSpec) -> bool {
    exists|o: int| 0 <= o < spec.outputs@.len() && rdf_faces().contains(bare(#[trigger] spec.outputs@[o]@))
}

/// Whether some action declares an RDF face.
pub open spec fn any_rdf_output(specs: Seq<ActionSpec>) -> bool {
    exists|k: int| 0 <= k < specs.len() && rdf_output(#[trigger] specs[k])
}

/// `a + n`, held at the largest `usize`.
pub open spec fn capped(a: usize, n: int) -> usize {
    if a + n > usize::MAX {
        usize::MAX
    } else {
        (a + n) as usize
    }
}

/// The detail for an entry whose pattern reaches no description.
pub open spec fn describes_nothing_detail(pattern: Seq<char>) -> Seq<char> {
    "bound at `"@ + pattern + "` but describes nothing: a Meta resolution of the pattern reaches no description"@
}

/// The detail for a root space that cannot be enumerated.
pub open spec fn not_enumerable_detail() -> Seq<char> {
    "the root space is not enumerable (`Kernel::entries()` is `None`): nothing can be walked — bind the module in an `EndpointSpace`"@
}

/// What the description-only checks find in a description walked for the first
/// time.
pub open spec fn static_findings(s: Suite, d: Description) -> Seq<FindingView> {
    (if runs(s, d.id@, Check::ArgSpecs) {
        argspecs_findings(d)
    } else {
        Seq::empty()
    }) + (if runs(s, d.id@, Check::RequiresVerb) {
        requires_verb_findings(d)
    } else {
        Seq::empty()
    }) + (if runs(s, d.id@, Check::Names) {
        names_findings(d)
    } else {
        Seq::empty()
    }) + (if runs(s, d.id@, Check::Pipeline) {
        pipeline_static_findings(d.id@, d.action_specs@, d.action_specs@.len() as int)
    } else {
        Seq::empty()
    })
}

/// What forming the entry's target finds: why there is none, under `ARGSPECS`.
pub open spec fn target_findings(s: Suite, pattern: Seq<char>, d: Description) -> Seq<FindingView> {
    match target(s, pattern, d) {
        Ok(_) => Seq::empty(),
        Err(detail) => if runs(s, d.id@, Check::ArgSpecs) {
            seq![(d.id@, None::<Verb>, Check::ArgSpecs, detail)]
        } else {
            Seq::empty()
        },
    }
}

/// What entering an entry bound to `d` finds, with `walked` the ids reached
/// before it.
pub open spec fn entered_findings(s: Suite, walked: Seq<String>, pattern: Seq<char>, d: Description) -> Seq<
    FindingView,
> {
    (if !listed(walked, d.id@) {
        static_findings(s, d)
    } else {
        Seq::empty()
    }) + template_findings(s, pattern, d) + target_findings(s, pattern, d)
}

/// Whether `probed` already has a line for the same endpoint, verb and face.
pub open spec fn already_probed(probed: Seq<ProbedView>, x: ProbedView) -> bool {
    exists|i: int|
        0 <= i < probed.len() && #[trigger] probed[i].0 == x.0 && probed[i].1 == x.1 && probed[i].2 == x.2
}

/// The walk in progress.
#[derive(Debug)]
pub struct Walk {
    /// The configured run.
    pub suite: Suite,
    /// What the walk has found so far.
    pub report: Report,
    /// What the walk has covered so far.
    pub coverage: Coverage,
    /// The terms the shared vocabulary defines.
    pub vocabulary: Vec<String>,
}

/// `list` with `(id, verb)` noted.
fn note_action(list: &mut Vec<(String, Verb)>, id: &str, verb: Verb)
    ensures
        aviews(final(list)@) == noted(aviews(old(list)@), (id@, verb)),
{
    let ghost av = aviews(list@);
    let present = holds_action(list, id, verb);
    proof {
        if present {
            let i = choose|i: int| 0 <= i < list@.len() && #[trigger] list@[i].0@ == id@ && list@[i].1 == verb;
            assert(av[i] == (id@, verb));
        }
        if av.contains((id@, verb)) {
            let i = choose|i: int| 0 <= i < av.len() && av[i] == (id@, verb);
            assert(list@[i].0@ == id@ && list@[i].1 == verb);
        }
    }
    if !present {
        list.push((owned(id), verb));
        assert(aviews(list@) =~= av.push((id@, verb)));
    }
}

/// `list` with `s` noted, at its end unless it is already there.
fn note_str(list: &mut Vec<String>, s: &str)
    ensures
        views(final(list)@) == if listed(old(list)@, s@) {
            views(old(list)@)
        } else {
            views(old(list)@).push(s@)
        },
        forall|x: Seq<char>| #[trigger] listed(final(list)@, x) == (listed(old(list)@, x) || x == s@),
{
    let ghost before = list@;
    if !is_listed(list, s) {
        list.push(owned(s));
        proof {
            assert(views(list@) =~= views(before).push(s@));
            assert forall|x: Seq<char>| #[trigger] listed(list@, x) == (listed(before, x) || x == s@) by {
                if listed(list@, x) {
                    let i = choose|i: int| 0 <= i < list@.len() && #[trigger] list@[i]@ == x;
                    if i < before.len() {
                        assert(before[i]@ == x);
                    }
                }
                if listed(before, x) {
                    let i = choose|i: int| 0 <= i < before.len() && #[trigger] before[i]@ == x;
                    assert(list@[i]@ == x);
                }
                if x == s@ {
                    assert(list@[before.len() as int]@ == x);
                }
            }
        }
    }
}

/// Whether an action declares an RDF face among its outputs.
fn has_rdf_output(spec: &ActionSpec) -> (r: bool)
    ensures
        r == rdf_output(*spec),
{
    let mut o: usize = 0;
    while o < spec.outputs.len()
        invariant
            o <= spec.outputs@.len(),
            forall|j: int| 0 <= j < o ==> !rdf_faces().contains(bare(#[trigger] spec.outputs@[j]@)),
        decreases spec.outputs@.len() - o,
    {
        if is_rdf_face(spec.outputs[o].as_str()) {
            return true;
        }
        o = o + 1;
    }
    false
}

/// Notes every action `d` declares, and whether it declares an RDF face.
fn note_declared(c: &mut Coverage, d: &Description)
    ensures
        aviews(final(c).actions@) == noted_actions(aviews(old(c).actions@), d.id@, d.action_specs@),
        forall|x: Seq<char>|
            #[trigger] listed(final(c).rdf_faces@, x) == (listed(old(c).rdf_faces@, x) || (x == d.id@
                && any_rdf_output(d.action_specs@))),
        *final(c) == (Coverage { actions: final(c).actions, rdf_faces: final(c).rdf_faces, ..*old(c) }),
{
    let id = d.id.as_str();
    let ghost rdf0 = c.rdf_faces@;
    let ghost a0 = aviews(c.actions@);
    let ghost c1 = *c;
    let mut i: usize = 0;
    assert(d.action_specs@.take(0) =~= Seq::<ActionSpec>::empty());
    while i < d.action_specs.len()
        invariant
            i <= d.action_specs@.len(),
            id@ == d.id@,
            aviews(c.actions@) == noted_actions(a0, id@, d.action_specs@.take(i as int)),
            forall|x: Seq<char>|
                #[trigger] listed(c.rdf_faces@, x) == (listed(rdf0, x) || (x == id@ && any_rdf_output(
                    d.action_specs@.take(i as int),
                ))),
            *c == (Coverage { actions: c.actions, rdf_faces: c.rdf_faces, ..c1 }),
        decreases d.action_specs@.len() - i,
    {
        let spec = &d.action_specs[i];
        proof {
            assert(d.action_specs@.take(i + 1).drop_last() =~= d.action_specs@.take(i as int));
            assert(d.action_specs@.take(i + 1).last() == *spec);
        }
        note_action(&mut c.actions, id, spec.verb);
        let rdf = has_rdf_output(spec);
        if rdf {
            note_str(&mut c.rdf_faces, id);
        }
        proof {
            assert forall|x: Seq<char>| #[trigger] listed(c.rdf_faces@, x) == (listed(rdf0, x) || (x == id@
                && any_rdf_output(d.action_specs@.take(i + 1)))) by {
                if rdf {
                    assert(d.action_specs@.take(i + 1)[i as int] == *spec);
                }
                if any_rdf_output(d.action_specs@.take(i + 1)) {
                    let k = choose|k: int|
                        0 <= k < i + 1 && rdf_output(#[trigger] d.action_specs@.take(i + 1)[k]);
                    if k < i {
                        assert(d.action_specs@.take(i as int)[k] == d.action_specs@.take(i + 1)[k]);
                    }
                }
                if any_rdf_output(d.action_specs@.take(i as int)) {
                    let k = choose|k: int| 0 <= k < i && rdf_output(#[trigger] d.action_specs@.take(i as int)[k]);
                    assert(d.action_specs@.take(i as int)[k] == d.action_specs@.take(i + 1)[k]);
                }
            }
        }
        i = i + 1;
    }
    assert(d.action_specs@.take(d.action_specs@.len() as int) =~= d.action_specs@);
}

/// `probed` with the line for what an action served, unless one for the same
/// endpoint, verb and face is there already.
pub open spec fn with_served(probed: Seq<ProbedView>, line: Option<ProbedView>) -> Seq<ProbedView> {
    match line {
        Some(x) => if already_probed(probed, x) {
            probed
        } else {
            probed.push(x)
        },
        None => probed,
    }
}

/// Whether `probed` already has a line for the endpoint, verb and face of `x`.
fn holds_probe(probed: &Vec<Probed>, x: &Probed) -> (r: bool)
    ensures
        r == already_probed(pviews(probed@), pview(*x)),
{
    let mut i: usize = 0;
    while i < probed.len()
        invariant
            i <= probed@.len(),
            forall|j: int|
                0 <= j < i ==> !(#[trigger] pviews(probed@)[j].0 == x.endpoint@ && pviews(probed@)[j].1
                    == x.verb && pviews(probed@)[j].2 == x.face@),
        decreases probed@.len() - i,
    {
        let p = &probed[i];
        if p.verb == x.verb && same(p.endpoint.as_str(), x.endpoint.as_str()) && same(
            p.face.as_str(),
            x.face.as_str(),
        ) {
            assert(pviews(probed@)[i as int] == pview(*p));
            assert(pviews(probed@)[i as int].0 == pview(*x).0);
            assert(pviews(probed@)[i as int].1 == pview(*x).1);
            assert(pviews(probed@)[i as int].2 == pview(*x).2);
            return true;
        }
        assert(pviews(probed@)[i as int] == pview(*p));
        i = i + 1;
    }
    false
}

impl Walk {
    /// Whether the walk's records are in order: every id's template variables
    /// kept sorted, each once.
    pub open spec fn well_formed(self) -> bool {
        &&& vars_sorted(self.coverage.vars@)
        &&& views(self.coverage.walked@).no_duplicates()
        &&& self.report.endpoints == capped(0, self.coverage.walked@.len() as int)
        &&& gated(self.suite, fviews(self.report.findings@))
    }

    /// A walk under `suite` that has covered nothing.
    pub fn new(suite: Suite) -> (w: Walk)
        ensures
            w.well_formed(),
            w.suite == suite,
            w.report.findings@.len() == 0,
            w.report.endpoints == 0,
            w.report.actions == 0,
            w.report.checks == suite.checks,
            w.report.unprobed@.len() == 0,
            w.report.probed@.len() == 0,
            w.report.walked@.len() == 0,
            w.coverage.walked@.len() == 0,
            w.coverage.actions@.len() == 0,
            w.coverage.opted_out@.len() == 0,
            w.coverage.rdf_faces@.len() == 0,
            w.coverage.vars@.len() == 0,
            w.coverage.cacheable_ran@.len() == 0,
            w.coverage.pure_consulted@.len() == 0,
            w.coverage.cacheable_unresolved@.len() == 0,
            w.coverage.namespaces_used@.len() == 0,
            !w.coverage.faces_probed,
            ascending(views(w.vocabulary@)),
            a_vocabulary(views(w.vocabulary@)),
    {
        let checks = suite.checks;
        Walk {
            suite,
            report: Report {
                findings: Vec::new(),
                endpoints: 0,
                actions: 0,
                checks,
                declared: Box::new(
                    Declarations {
                        opted_out: Vec::new(),
                        opted_out_checks: Vec::new(),
                        pure: Vec::new(),
                        cacheable: Vec::new(),
                        live: Vec::new(),
                        namespaces: Vec::new(),
                        fixtures: Vec::new(),
                    },
                ),
                unprobed: Vec::new(),
                probed: Vec::new(),
                walked: Vec::new(),
            },
            coverage: Coverage::new(),
            vocabulary: vocabulary_terms(),
        }
    }

    /// Whether the walk visits an entry bound at `pattern`: the kernel's own
    /// `urn:kernel:` operations only when the suite asks for them.
    pub fn visits(&self, pattern: &str) -> (r: bool)
        ensures
            r == !(KERNEL_NS@.is_prefix_of(pattern@) && !self.suite.kernel_ops),
    {
        !(starts_with(pattern, KERNEL_NS) && !self.suite.kernel_ops)
    }

    /// The report of a root space that cannot be enumerated: nothing can be
    /// walked, so the one finding says so.
    pub fn unenumerable(self) -> (r: Report)
        ensures
            fviews(r.findings@) == fviews(self.report.findings@).push(
                ("(kernel)"@, None::<Verb>, Check::ArgSpecs, not_enumerable_detail()),
            ),
            r.endpoints == self.report.endpoints,
            r.actions == self.report.actions,
            r.checks == self.report.checks,
            r.unprobed == self.report.unprobed,
            r.probed == self.report.probed,
            r.walked == self.report.walked,
            r.declared.opted_out == self.suite.opt_outs,
            r.declared.opted_out_checks == self.suite.opt_out_checks,
            r.declared.pure == self.suite.pure,
            r.declared.cacheable == self.suite.cacheable,
            r.declared.live == self.suite.live,
            r.declared.namespaces == self.suite.namespaces,
            r.declared.fixtures == self.suite.fixtures,
    {
        let Walk { suite, report, coverage: _, vocabulary: _ } = self;
        let mut report = report;
        push_finding(
            &mut report.findings,
            "(kernel)",
            None,
            Check::ArgSpecs,
            owned(
                "the root space is not enumerable (`Kernel::entries()` is `None`): nothing can be walked — bind the module in an `EndpointSpace`",
            ),
        );
        report.declared = Box::new(
            Declarations {
                opted_out: suite.opt_outs,
                opted_out_checks: suite.opt_out_checks,
                pure: suite.pure,
                cacheable: suite.cacheable,
                live: suite.live,
                namespaces: suite.namespaces,
                fixtures: suite.fixtures,
            },
        );
        report
    }

    /// Enters one entry of the root space, with the description its pattern
    /// reaches (if any): the description-only checks the first time its id is
    /// reached, the template rule, what the walk covered, and the target IRI.
    /// Returns the probes of its actions that are not opted out, in order; the
    /// host drives each and hands its evidence to [`Walk::conclude`].
    #[verifier::rlimit(40)]
    pub fn enter(&mut self, entry: &Entry, description: Option<&Description>) -> (probes: Vec<Probe>)
        requires
            old(self).well_formed(),
        ensures
            final(self).well_formed(),
            final(self).suite == old(self).suite,
            final(self).vocabulary == old(self).vocabulary,
            final(self).report.checks == old(self).report.checks,
            final(self).report.unprobed == old(self).report.unprobed,
            final(self).report.probed == old(self).report.probed,
            final(self).report.walked == old(self).report.walked,
            final(self).report.declared == old(self).report.declared,
            final(self).coverage.cacheable_ran == old(self).coverage.cacheable_ran,
            final(self).coverage.pure_consulted == old(self).coverage.pure_consulted,
            final(self).coverage.cacheable_unresolved == old(self).coverage.cacheable_unresolved,
            final(self).coverage.namespaces_used == old(self).coverage.namespaces_used,
            final(self).coverage.faces_probed == old(self).coverage.faces_probed,
            match description {
                None => {
                    &&& fviews(final(self).report.findings@) == fviews(old(self).report.findings@) + if runs(
                        old(self).suite,
                        entry.endpoint@,
                        Check::ArgSpecs,
                    ) {
                        seq![
                            (
                                entry.endpoint@,
                                None::<Verb>,
                                Check::ArgSpecs,
                                describes_nothing_detail(entry.pattern@),
                            ),
                        ]
                    } else {
                        Seq::empty()
                    }
                    &&& final(self).report.endpoints == old(self).report.endpoints
                    &&& final(self).report.actions == old(self).report.actions
                    &&& final(self).coverage == old(self).coverage
                    &&& probes@.len() == 0
                },
                Some(d) => {
                    let s = old(self).suite;
                    let id = d.id@;
                    let first = !listed(old(self).coverage.walked@, id);
                    &&& fviews(final(self).report.findings@) == fviews(old(self).report.findings@)
                        + entered_findings(s, old(self).coverage.walked@, entry.pattern@, *d)
                    &&& final(self).report.endpoints == if first {
                        capped(old(self).report.endpoints, 1)
                    } else {
                        old(self).report.endpoints
                    }
                    &&& views(final(self).coverage.walked@) == if first {
                        views(old(self).coverage.walked@).push(id)
                    } else {
                        views(old(self).coverage.walked@)
                    }
                    &&& aviews(final(self).coverage.actions@) == noted_actions(
                        aviews(old(self).coverage.actions@),
                        id,
                        d.action_specs@,
                    )
                    &&& forall|x: Seq<char>|
                        #[trigger] listed(final(self).coverage.rdf_faces@, x) == (listed(
                            old(self).coverage.rdf_faces@,
                            x,
                        ) || (x == id && any_rdf_output(d.action_specs@)))
                    &&& forall|x: Seq<char>|
                        #[trigger] var_set(final(self).coverage.vars@, x) == match pattern_vars(
                            entry.pattern@,
                        ) {
                            Some(vs) => if x == id {
                                var_set(old(self).coverage.vars@, x).union(vs.to_set())
                            } else {
                                var_set(old(self).coverage.vars@, x)
                            },
                            None => var_set(old(self).coverage.vars@, x),
                        }
                    &&& match target(s, entry.pattern@, *d) {
                        Ok(t) => {
                            &&& final(self).report.actions == capped(
                                old(self).report.actions,
                                d.action_specs@.len() as int,
                            )
                            &&& aviews(final(self).coverage.opted_out@) == noted_exclusions(
                                aviews(old(self).coverage.opted_out@),
                                s,
                                id,
                                d.action_specs@,
                            )
                            &&& probes@.len() == kept_specs(s, id, d.action_specs@).len()
                            &&& forall|k: int|
                                0 <= k < probes@.len() ==> planned(
                                    s,
                                    id,
                                    t,
                                    kept_specs(s, id, d.action_specs@)[k],
                                    #[trigger] probes@[k],
                                )
                        },
                        Err(_) => {
                            &&& final(self).report.actions == old(self).report.actions
                            &&& final(self).coverage.opted_out == old(self).coverage.opted_out
                            &&& probes@.len() == 0
                        },
                    }
                },
            },
    {
        let d = match description {
            None => {
                let ghost f0 = fviews(self.report.findings@);
                if self.suite.runs(entry.endpoint.as_str(), Check::ArgSpecs) {
                    let mut detail = owned("bound at `");
                    append(&mut detail, entry.pattern.as_str());
                    append(
                        &mut detail,
                        "` but describes nothing: a Meta resolution of the pattern reaches no description",
                    );
                    push_finding(&mut self.report.findings, entry.endpoint.as_str(), None, Check::ArgSpecs, detail);
                    proof {
                        let add = fviews(self.report.findings@).subrange(f0.len() as int, f0.len() + 1int);
                        assert(fviews(self.report.findings@) =~= f0 + add);
                        assert(gated(self.suite, add));
                        lemma_gated_concat(self.suite, f0, add);
                    }
                } else {
                    assert(fviews(self.report.findings@) =~= f0 + Seq::<FindingView>::empty());
                }
                assert(gated(self.suite, fviews(self.report.findings@)));
                assert(self.well_formed());
                return Vec::new();
            },
            Some(d) => d,
        };
        let ghost f0 = fviews(self.report.findings@);
        let ghost w0 = self.coverage.walked@;
        let id = d.id.as_str();
        self.first_visit(d);
        proof {
            if !listed(w0, d.id@) {
                assert(!views(w0).contains(d.id@)) by {
                    if views(w0).contains(d.id@) {
                        let i = choose|i: int| 0 <= i < views(w0).len() && views(w0)[i] == d.id@;
                        assert(w0[i]@ == d.id@);
                    }
                }
                assert(views(w0).push(d.id@).no_duplicates()) by {
                    let v = views(w0).push(d.id@);
                    assert forall|i: int, j: int| 0 <= i < v.len() && 0 <= j < v.len() && i != j implies v[i]
                        != v[j] by {
                        if i < views(w0).len() && j < views(w0).len() {
                        } else if i < views(w0).len() {
                            assert(views(w0)[i] == v[i]);
                        } else {
                            assert(views(w0)[j] == v[j]);
                        }
                    }
                }
            }
        }
        match template_vars(entry.pattern.as_str()) {
            Some(vs) => {
                note_vars(&mut self.coverage.vars, id, &vs);
            },
            None => {},
        }
        note_declared(&mut self.coverage, d);
        template_checks(&self.suite, entry, d, &mut self.report.findings);
        let ghost f2 = fviews(self.report.findings@);
        proof {
            assert(vars_sorted(self.coverage.vars@));
            assert(views(self.coverage.walked@).no_duplicates());
            assert(self.report.endpoints == capped(0, self.coverage.walked@.len() as int));
            assert(gated(self.suite, f0));
        }
        let iri = match target_for(&self.suite, entry, d) {
            Ok(t) => t,
            Err(detail) => {
                if self.suite.runs(id, Check::ArgSpecs) {
                    push_finding(&mut self.report.findings, id, None, Check::ArgSpecs, detail);
                } else {
                    assert(fviews(self.report.findings@) =~= f2 + Seq::<FindingView>::empty());
                }
                assert(fviews(self.report.findings@) =~= f0 + entered_findings(
                    self.suite,
                    w0,
                    entry.pattern@,
                    *d,
                ));
                proof {
                    lemma_entered_gated(self.suite, w0, entry.pattern@, *d);
                    lemma_gated_concat(self.suite, f0, entered_findings(self.suite, w0, entry.pattern@, *d));
                }
                assert(gated(self.suite, fviews(self.report.findings@)));
                return Vec::new();
            },
        };
        assert(fviews(self.report.findings@) =~= f0 + entered_findings(self.suite, w0, entry.pattern@, *d));
        proof {
            assert(gated(self.suite, f0));
            lemma_entered_gated(self.suite, w0, entry.pattern@, *d);
            lemma_gated_concat(self.suite, f0, entered_findings(self.suite, w0, entry.pattern@, *d));
            assert(gated(self.suite, fviews(self.report.findings@)));
        }
        let ghost before = *self;
        assert(vars_sorted(self.coverage.vars@));
        assert(views(self.coverage.walked@).no_duplicates());
        assert(self.report.endpoints == capped(0, self.coverage.walked@.len() as int));
        let probes = self.plan_actions(d, &iri);
        assert(self.report.findings@ == before.report.findings@);
        assert(self.coverage.walked == before.coverage.walked);
        assert(self.coverage.vars == before.coverage.vars);
        assert(gated(self.suite, fviews(self.report.findings@)));
        probes
    }

    /// The first time an id is reached: count it, note it, and run the
    /// description-only checks on it.
    fn first_visit(&mut self, d: &Description)
        ensures
            fviews(final(self).report.findings@) == fviews(old(self).report.findings@) + if !listed(
                old(self).coverage.walked@,
                d.id@,
            ) {
                static_findings(old(self).suite, *d)
            } else {
                Seq::empty()
            },
            final(self).report.endpoints == if !listed(old(self).coverage.walked@, d.id@) {
                capped(old(self).report.endpoints, 1)
            } else {
                old(self).report.endpoints
            },
            views(final(self).coverage.walked@) == if !listed(old(self).coverage.walked@, d.id@) {
                views(old(self).coverage.walked@).push(d.id@)
            } else {
                views(old(self).coverage.walked@)
            },
            final(self).report == (Report {
                findings: final(self).report.findings,
                endpoints: final(self).report.endpoints,
                ..old(self).report
            }),
            final(self).coverage == (Coverage { walked: final(self).coverage.walked, ..old(self).coverage }),
            final(self).suite == old(self).suite,
            final(self).vocabulary == old(self).vocabulary,
    {
        let ghost f0 = fviews(self.report.findings@);
        let id = d.id.as_str();
        if is_listed(&self.coverage.walked, id) {
            assert(fviews(self.report.findings@) =~= f0 + Seq::<FindingView>::empty());
            return;
        }
        self.report.endpoints = self.report.endpoints.saturating_add(1);
        note_str(&mut self.coverage.walked, id);
        if self.suite.runs(id, Check::ArgSpecs) {
            argspecs(d, &mut self.report.findings);
        }
        if self.suite.runs(id, Check::RequiresVerb) {
            requires_verb(d, &mut self.report.findings);
        }
        if self.suite.runs(id, Check::Names) {
            names(d, &mut self.report.findings);
        }
        if self.suite.runs(id, Check::Pipeline) {
            pipeline_static(d, &mut self.report.findings);
        }
        assert(fviews(self.report.findings@) =~= f0 + static_findings(self.suite, *d));
    }

    /// Counts the actions of `d`, notes the opted-out ones, and plans a probe for
    /// every other one, resolved at `iri`.
    fn plan_actions(&mut self, d: &Description, iri: &String) -> (probes: Vec<Probe>)
        ensures
            final(self).report.actions == capped(old(self).report.actions, d.action_specs@.len() as int),
            aviews(final(self).coverage.opted_out@) == noted_exclusions(
                aviews(old(self).coverage.opted_out@),
                old(self).suite,
                d.id@,
                d.action_specs@,
            ),
            probes@.len() == kept_specs(old(self).suite, d.id@, d.action_specs@).len(),
            forall|k: int|
                0 <= k < probes@.len() ==> planned(
                    old(self).suite,
                    d.id@,
                    iri@,
                    kept_specs(old(self).suite, d.id@, d.action_specs@)[k],
                    #[trigger] probes@[k],
                ),
            final(self).report == (Report { actions: final(self).report.actions, ..old(self).report }),
            final(self).coverage == (Coverage {
                opted_out: final(self).coverage.opted_out,
                ..old(self).coverage
            }),
            final(self).suite == old(self).suite,
            final(self).vocabulary == old(self).vocabulary,
    {
        let id = d.id.as_str();
        let ghost o0 = aviews(self.coverage.opted_out@);
        let ghost n0 = self.report.actions;
        let ghost r2 = self.report;
        let ghost c2 = self.coverage;
        let mut probes: Vec<Probe> = Vec::new();
        let mut j: usize = 0;
        assert(d.action_specs@.take(0) =~= Seq::<ActionSpec>::empty());
        while j < d.action_specs.len()
            invariant
                j <= d.action_specs@.len(),
                id@ == d.id@,
                self.report.actions == capped(n0, j as int),
                aviews(self.coverage.opted_out@) == noted_exclusions(o0, self.suite, id@, d.action_specs@.take(j as int)),
                probes@.len() == kept_specs(self.suite, id@, d.action_specs@.take(j as int)).len(),
                forall|k: int|
                    0 <= k < probes@.len() ==> planned(
                        self.suite,
                        id@,
                        iri@,
                        kept_specs(self.suite, id@, d.action_specs@.take(j as int))[k],
                        #[trigger] probes@[k],
                    ),
                self.suite == old(self).suite,
                self.vocabulary == old(self).vocabulary,
                self.report == (Report { actions: self.report.actions, ..r2 }),
                self.coverage == (Coverage { opted_out: self.coverage.opted_out, ..c2 }),
            decreases d.action_specs@.len() - j,
        {
            let spec = &d.action_specs[j];
            proof {
                assert(d.action_specs@.take(j + 1).drop_last() =~= d.action_specs@.take(j as int));
                assert(d.action_specs@.take(j + 1).last() == *spec);
            }
            self.report.actions = self.report.actions.saturating_add(1);
            let ghost kept_before = kept_specs(self.suite, id@, d.action_specs@.take(j as int));
            if self.suite.opted_out(id, spec.verb) {
                note_action(&mut self.coverage.opted_out, id, spec.verb);
                assert(kept_specs(self.suite, id@, d.action_specs@.take(j + 1)) =~= kept_before);
            } else {
                let p = Probe::plan(&self.suite, id, iri.as_str(), spec);
                let ghost pb = probes@;
                probes.push(p);
                proof {
                    assert(kept_specs(self.suite, id@, d.action_specs@.take(j + 1)) =~= kept_before.push(*spec));
                    assert forall|k: int| 0 <= k < probes@.len() implies planned(
                        self.suite,
                        id@,
                        iri@,
                        kept_specs(self.suite, id@, d.action_specs@.take(j + 1))[k],
                        #[trigger] probes@[k],
                    ) by {
                        if k < kept_before.len() {
                            assert(probes@[k] == pb[k]);
                        }
                    }
                }
            }
            j = j + 1;
        }
        assert(d.action_specs@.take(d.action_specs@.len() as int) =~= d.action_specs@);
        probes
    }

    /// Hands the walk the evidence of one of the probes [`Walk::enter`] returned,
    /// with the readings of its faces ([`read_faces`](crate::probe::read_faces)):
    /// what the invoking checks make of it joins the report, and what it covered
    /// joins the coverage.
    pub fn conclude(
        &mut self,
        probe: &Probe,
        e: &Evidence,
        readings: &Vec<Option<Result<Reading, String>>>,
    )
        requires
            old(self).well_formed(),
            exists|target: Seq<char>, spec: ActionSpec|
                #[trigger] planned(old(self).suite, probe.id@, target, spec, *probe),
        ensures
            final(self).well_formed(),
            final(self).suite == old(self).suite,
            final(self).vocabulary == old(self).vocabulary,
            fviews(final(self).report.findings@) == fviews(old(self).report.findings@) + judged_findings(
                *probe,
                *e,
                readings@,
                views(old(self).vocabulary@),
            ),
            uviews(final(self).report.unprobed@) == uviews(old(self).report.unprobed@)
                + judged_unprobed(*probe, *e),
            pviews(final(self).report.probed@) == with_served(
                pviews(old(self).report.probed@) + faces_judged(
                    *probe,
                    *e,
                    readings@,
                    views(old(self).vocabulary@),
                ).1,
                served_line(*probe, *e),
            ),
            final(self).report == (Report {
                findings: final(self).report.findings,
                unprobed: final(self).report.unprobed,
                probed: final(self).report.probed,
                ..old(self).report
            }),
            forall|x: Seq<char>|
                #[trigger] listed(final(self).coverage.cacheable_ran@, x) == (listed(
                    old(self).coverage.cacheable_ran@,
                    x,
                ) || (x == probe.id@ && caching(*probe))),
            forall|x: Seq<char>|
                #[trigger] listed(final(self).coverage.pure_consulted@, x) == (listed(
                    old(self).coverage.pure_consulted@,
                    x,
                ) || (x == probe.id@ && pure_consulted(*probe, *e))),
            forall|x: Seq<char>|
                #[trigger] listed(final(self).coverage.cacheable_unresolved@, x) == (listed(
                    old(self).coverage.cacheable_unresolved@,
                    x,
                ) || (x == probe.id@ && cacheable_unresolved(*probe, *e))),
            final(self).coverage.faces_probed == (old(self).coverage.faces_probed || faces_judged(
                *probe,
                *e,
                readings@,
                views(old(self).vocabulary@),
            ).3),
            forall|x: Seq<char>|
                #[trigger] listed(final(self).coverage.namespaces_used@, x) == (listed(
                    old(self).coverage.namespaces_used@,
                    x,
                ) || faces_judged(*probe, *e, readings@, views(old(self).vocabulary@)).4.contains(x)),
            final(self).coverage == (Coverage {
                cacheable_ran: final(self).coverage.cacheable_ran,
                pure_consulted: final(self).coverage.pure_consulted,
                cacheable_unresolved: final(self).coverage.cacheable_unresolved,
                faces_probed: final(self).coverage.faces_probed,
                namespaces_used: final(self).coverage.namespaces_used,
                ..old(self).coverage
            }),
    {
        proof {
            let (t, sp) = choose|t: Seq<char>, sp: ActionSpec| #[trigger] planned(self.suite, probe.id@, t, sp, *probe);
            lemma_judged_gated(self.suite, probe.id@, t, sp, *probe, *e, readings@, views(self.vocabulary@));
            lemma_gated_concat(
                self.suite,
                fviews(self.report.findings@),
                judged_findings(*probe, *e, readings@, views(self.vocabulary@)),
            );
        }
        let v = probe.judge(e, readings, &self.vocabulary);
        let Verdict {
            findings: mut found,
            unprobed: mut missed,
            probed: mut seen,
            reported: _,
            cacheable_ran,
            pure_consulted,
            unresolved,
            faces_probed,
            namespaces_used,
            served,
        } = v;
        let ghost f0 = fviews(self.report.findings@);
        let ghost u0 = uviews(self.report.unprobed@);
        let ghost p0 = pviews(self.report.probed@);
        let ghost fa = found@;
        let ghost ua = missed@;
        let ghost pa = seen@;
        self.report.findings.append(&mut found);
        self.report.unprobed.append(&mut missed);
        self.report.probed.append(&mut seen);
        assert(fviews(self.report.findings@) =~= f0 + fviews(fa));
        assert(uviews(self.report.unprobed@) =~= u0 + uviews(ua));
        assert(pviews(self.report.probed@) =~= p0 + pviews(pa));
        let ghost pb = pviews(self.report.probed@);
        match served {
            Some(x) => {
                if !holds_probe(&self.report.probed, &x) {
                    self.report.probed.push(x);
                    assert(pviews(self.report.probed@) =~= pb.push(pview(x)));
                }
            },
            None => {},
        }
        let id = probe.id.as_str();
        if cacheable_ran {
            note_str(&mut self.coverage.cacheable_ran, id);
        }
        if pure_consulted {
            note_str(&mut self.coverage.pure_consulted, id);
        }
        if unresolved {
            note_str(&mut self.coverage.cacheable_unresolved, id);
        }
        if faces_probed {
            self.coverage.faces_probed = true;
        }
        let ghost n0 = self.coverage.namespaces_used@;
        let ghost c3 = self.coverage;
        let ghost r3 = self.report;
        let mut k: usize = 0;
        while k < namespaces_used.len()
            invariant
                k <= namespaces_used@.len(),
                forall|x: Seq<char>|
                    #[trigger] listed(self.coverage.namespaces_used@, x) == (listed(n0, x) || listed(
                        namespaces_used@.take(k as int),
                        x,
                    )),
                self.coverage == (Coverage { namespaces_used: self.coverage.namespaces_used, ..c3 }),
                self.report == r3,
                self.suite == old(self).suite,
                self.vocabulary == old(self).vocabulary,
            decreases namespaces_used@.len() - k,
        {
            note_str(&mut self.coverage.namespaces_used, namespaces_used[k].as_str());
            proof {
                assert forall|x: Seq<char>| #[trigger] listed(namespaces_used@.take(k + 1), x) == (listed(
                    namespaces_used@.take(k as int),
                    x,
                ) || x == namespaces_used@[k as int]@) by {
                    if listed(namespaces_used@.take(k + 1), x) {
                        let i = choose|i: int| 0 <= i < k + 1 && #[trigger] namespaces_used@.take(k + 1)[i]@ == x;
                        if i < k {
                            assert(namespaces_used@.take(k as int)[i]@ == x);
                        }
                    }
                    if listed(namespaces_used@.take(k as int), x) {
                        let i = choose|i: int| 0 <= i < k && #[trigger] namespaces_used@.take(k as int)[i]@ == x;
                        assert(namespaces_used@.take(k + 1)[i]@ == x);
                    }
                    if x == namespaces_used@[k as int]@ {
                        assert(namespaces_used@.take(k + 1)[k as int]@ == x);
                    }
                }
            }
            k = k + 1;
        }
        proof {
            assert(namespaces_used@.take(namespaces_used@.len() as int) =~= namespaces_used@);
            assert forall|x: Seq<char>| #[trigger] listed(namespaces_used@, x) == views(namespaces_used@).to_set().contains(x) by {
                if listed(namespaces_used@, x) {
                    let i = choose|i: int| 0 <= i < namespaces_used@.len() && #[trigger] namespaces_used@[i]@ == x;
                    assert(views(namespaces_used@)[i] == x);
                }
                if views(namespaces_used@).to_set().contains(x) {
                    let i = choose|i: int| 0 <= i < views(namespaces_used@).len() && views(namespaces_used@)[i] == x;
                    assert(namespaces_used@[i]@ == x);
                }
            }
        }
    }

    /// Ends the walk: every declaration the module made is held against what the
    /// walk covered, and the report carries the walk order and the declarations.
    pub fn finish(self) -> (r: Report)
        ensures
            fviews(r.findings@) == fviews(self.report.findings@) + declaration_findings(
                self.suite,
                self.coverage,
            ),
            r.walked == self.coverage.walked,
            r.endpoints == self.report.endpoints,
            self.well_formed() ==> views(r.walked@).no_duplicates() && r.endpoints == capped(
                0,
                r.walked@.len() as int,
            ),
            self.well_formed() ==> gated(self.suite, fviews(r.findings@)),
            r.actions == self.report.actions,
            r.checks == self.report.checks,
            r.unprobed == self.report.unprobed,
            r.probed == self.report.probed,
            r.declared.opted_out == self.suite.opt_outs,
            r.declared.opted_out_checks == self.suite.opt_out_checks,
            r.declared.pure == self.suite.pure,
            r.declared.cacheable == self.suite.cacheable,
            r.declared.live == self.suite.live,
            r.declared.namespaces == self.suite.namespaces,
            r.declared.fixtures == self.suite.fixtures,
    {
        let ghost wf = self.well_formed();
        let Walk { suite, report, coverage, vocabulary: _ } = self;
        let mut report = report;
        let ghost f0 = fviews(report.findings@);
        declaration_checks(&suite, &coverage, &mut report.findings);
        proof {
            if wf {
                lemma_declarations_gated(suite, coverage);
                lemma_gated_concat(suite, f0, declaration_findings(suite, coverage));
            }
        }
        report.walked = coverage.walked;
        report.declared = Box::new(
            Declarations {
                opted_out: suite.opt_outs,
                opted_out_checks: suite.opt_out_checks,
                pure: suite.pure,
                cacheable: suite.cacheable,
                live: suite.live,
                namespaces: suite.namespaces,
                fixtures: suite.fixtures,
            },
        );
        report
    }
}

} // verus!
