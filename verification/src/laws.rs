//! What holds of the suite as a whole, across its functions and over every input.
use crate::checks::{
    all_checks, check_bit, check_label, checks_minus, checks_union, checks_where, lemma_bit_alone,
    lemma_single_bit, Check, Checks,
};
use crate::probe::{
    authority_findings, authority_unprobed, caching, enforced_findings, face_check, face_step,
    faces_judged, faces_upto, fv, graphs, judged_findings, vocab_findings, both_detail,
    cacheable_findings, covering, Evidence, FaceState, Probe, Reading,
};
use crate::rdf::{bare, defined_among, parsed, rdf_graph, rdf_media_known, reads_as, vocab_ns, Triple};
use crate::report::{
    coverage_text, findings_block, first_of_group, fixtures_block, grouped_ids, grouped_text, list_text,
    opted_out_block, probed_section, report_text, same_waiver, summary_text, unprobed_block,
    FindingView, OptedOutCheck, Report,
};
use crate::suite::{runs, Suite};
use crate::text::{before_first, joined, lemma_bare_idempotent};
use crate::fixture::Fixture;
use crate::model::{ActionSpec, Description, Verb};
use crate::probe::planned;
use crate::statics::{
    actions_findings, argspecs_findings, input_findings, inputs_findings, named_before,
    names_findings, no_action_detail, not_iri_detail, pipeline_static_findings,
    required_default_detail, requires_verb_findings, stray_default_detail, twice_detail,
    untyped_detail, not_kebab_detail, inert_requires_detail,
};
use crate::suite::{listed, SUITE};
use crate::template::{pattern_vars, template_findings, template_findings_upto, unbound_vars};
use crate::text::views;
use crate::walk::{
    declaration_findings, entered_findings, excluded_action_detail, Coverage, fixture_inert, fixtures_inert,
    has_action, has_any_action, idle_opt_outs, idle_waivers, inert_line, known_var, static_findings,
    stray_binding_detail, stray_bindings, target_findings, unconsulted, unconsulted_detail, unheld,
    unheld_detail, unused_namespace_detail, unused_namespaces, undeclared_action_detail,
    why_excluded_nothing, why_no_cacheable, why_not_consulted, why_unused,
};
use vstd::prelude::*;

verus! {

/// No two checks share a label: a report line names its check unambiguously.
pub proof fn law_labels_distinct(a: Check, b: Check)
    ensures
        a != b ==> check_label(a) != check_label(b),
{
    reveal_strlit("ARGSPECS");
    reveal_strlit("REQUIRES-VERB");
    reveal_strlit("ENFORCED");
    reveal_strlit("AUTHORITY");
    reveal_strlit("OUTPUTS");
    reveal_strlit("SKOLEM-RDF");
    reveal_strlit("VOCABULARY");
    reveal_strlit("CACHEABLE");
    reveal_strlit("PIPELINE");
    reveal_strlit("NAMES");
    reveal_strlit("DECLARATIONS");
    if a != b && check_label(a) == check_label(b) {
        assert(check_label(a)[0] == check_label(b)[0]);
        assert(check_label(a).len() == check_label(b).len());
    }
}

/// Every check has its own bit: two different checks never share one, so a
/// selection holding one check holds no other by accident.
pub proof fn law_bits_distinct(a: Check, b: Check)
    ensures
        a != b ==> check_bit(a) != check_bit(b),
        check_bit(a) != 0,
{
}

/// Report order lists every check exactly once.
pub proof fn law_order_complete(c: Check)
    ensures
        all_checks().contains(c),
        all_checks().no_duplicates(),
{
    let all = all_checks();
    match c {
        Check::ArgSpecs => assert(all[0] == c),
        Check::RequiresVerb => assert(all[1] == c),
        Check::Enforced => assert(all[2] == c),
        Check::Authority => assert(all[3] == c),
        Check::Outputs => assert(all[4] == c),
        Check::SkolemRdf => assert(all[5] == c),
        Check::Vocabulary => assert(all[6] == c),
        Check::Cacheable => assert(all[7] == c),
        Check::Pipeline => assert(all[8] == c),
        Check::Names => assert(all[9] == c),
        Check::Declarations => assert(all[10] == c),
    }
}

/// `|` and `-` on selections are union and difference: a check is in `a | b`
/// exactly when it is in either, and in `a - b` exactly when it is in `a` and not
/// in `b` (for a single check `d` as the right operand too). So `|` is
/// commutative and idempotent, `Checks::none()` leaves either operation's left
/// operand as it was, and `a - a` is `Checks::none()`.
pub proof fn law_checks_algebra(a: Checks, b: Checks, c: Check, d: Check)
    ensures
        checks_union(a, b)@.contains(c) == (a@.contains(c) || b@.contains(c)),
        checks_union(a, Checks(check_bit(d)))@.contains(c) == (a@.contains(c) || c == d),
        checks_minus(a, b)@.contains(c) == (a@.contains(c) && !b@.contains(c)),
        checks_minus(a, Checks(check_bit(d)))@.contains(c) == (a@.contains(c) && c != d),
        checks_union(a, b) == checks_union(b, a),
        checks_union(a, a) == a,
        checks_union(a, Checks(0)) == a,
        checks_minus(a, Checks(0)) == a,
        checks_minus(a, a) == Checks(0),
{
    let x = a.0;
    let y = b.0;
    lemma_single_bit(x, y, check_bit(c));
    lemma_single_bit(x, check_bit(d), check_bit(c));
    lemma_bit_alone(d, c);
    assert((x | y) == (y | x) && (x | x) == x && (x | 0) == x && (x & !0u16) == x && (x & !x)
        == 0) by (bit_vector);
}

/// The checks a selection runs and the ones a report prints as skipped split
/// every check between them: each check is in exactly one of the two.
pub proof fn law_selection_partition(s: Checks, c: Check)
    ensures
        checks_where(all_checks(), s@, true).contains(c) == s@.contains(c),
        checks_where(all_checks(), s@, false).contains(c) == !s@.contains(c),
{
    law_order_complete(c);
    let i = choose|i: int| 0 <= i < all_checks().len() && all_checks()[i] == c;
    reveal(Seq::filter);
    if checks_where(all_checks(), s@, true).contains(c) {
        all_checks().lemma_filter_contains_rev(|x: Check| s@.contains(x) == true, c);
    }
    if checks_where(all_checks(), s@, false).contains(c) {
        all_checks().lemma_filter_contains_rev(|x: Check| s@.contains(x) == false, c);
    }
    if s@.contains(c) {
        all_checks().lemma_filter_contains(|x: Check| s@.contains(x) == true, i);
    } else {
        all_checks().lemma_filter_contains(|x: Check| s@.contains(x) == false, i);
    }
}

/// A per-endpoint waiver silences one rule on one endpoint and nothing else:
/// after `Suite::opt_out_check(id, check, ..)`, a check runs for an endpoint
/// exactly when it ran before, except `check` on `id`.
pub proof fn law_waiver_is_local(s: Suite, waived_suite: Suite, w: OptedOutCheck, id: Seq<char>, c: Check)
    requires
        waived_suite == (Suite { opt_out_checks: waived_suite.opt_out_checks, ..s }),
        waived_suite.opt_out_checks@ == s.opt_out_checks@.push(w),
    ensures
        runs(waived_suite, id, c) == (runs(s, id, c) && !(id == w.endpoint@ && c == w.check)),
{
    let before = s.opt_out_checks@;
    let after = waived_suite.opt_out_checks@;
    if crate::report::waived(after, id, c) {
        let k = choose|k: int| 0 <= k < after.len() && #[trigger] after[k].endpoint@ == id && after[k].check == c;
        if k < before.len() {
            assert(before[k] == after[k]);
        }
    }
    if crate::report::waived(before, id, c) {
        let k = choose|k: int| 0 <= k < before.len() && #[trigger] before[k].endpoint@ == id && before[k].check == c;
        assert(after[k] == before[k]);
    }
    if id == w.endpoint@ && c == w.check {
        assert(after[before.len() as int] == w);
    }
}

/// Opting an action out of the invoking checks leaves the description-only
/// checks alone: what entering an entry finds does not depend on the opt-outs.
pub proof fn law_opt_out_keeps_description_checks(
    s: Suite,
    opted: Suite,
    walked: Seq<String>,
    pattern: Seq<char>,
    d: crate::model::Description,
)
    requires
        opted == (Suite { opt_outs: opted.opt_outs, ..s }),
    ensures
        entered_findings(opted, walked, pattern, d) == entered_findings(s, walked, pattern, d),
{
    assert(crate::template::variable_values(opted, d, Seq::empty()) == crate::template::variable_values(s, d, Seq::empty()));
    match crate::template::template_parsed(pattern) {
        Ok(vars) => {
            assert(crate::template::variable_values(opted, d, vars) =~= crate::template::variable_values(
                s,
                d,
                vars,
            ));
        },
        Err(_) => {},
    }
}

/// A term under the shared vocabulary's own namespace is accounted for by the
/// vocabulary alone: registering namespaces never covers an invented `ik:` term.
pub proof fn law_vocabulary_terms_not_waivable(
    term: Seq<char>,
    namespaces: Seq<Seq<char>>,
    vocabulary: Seq<Seq<char>>,
)
    requires
        vocab_ns().is_prefix_of(term),
    ensures
        defined_among(term, namespaces, vocabulary) == vocabulary.contains(term),
        covering(term, namespaces) is None,
{
}

/// The parameters of a media type never change which face it names: a type and
/// the same type with `;key=value` parameters compare equal once bare.
pub proof fn law_parameters_ignored(media_type: Seq<char>, params: Seq<char>)
    requires
        !media_type.contains(';'),
    ensures
        bare(media_type + seq![';'] + params) == bare(media_type),
{
    lemma_before_semicolon(media_type, params);
}

proof fn lemma_before_semicolon(m: Seq<char>, params: Seq<char>)
    requires
        !m.contains(';'),
    ensures
        before_first(m + seq![';'] + params, ';') == m,
        before_first(m, ';') == m,
    decreases m.len(),
{
    if m.len() == 0 {
        assert((m + seq![';'] + params)[0] == ';');
    } else {
        assert(!m.drop_first().contains(';')) by {
            if m.drop_first().contains(';') {
                let i = choose|i: int| 0 <= i < m.drop_first().len() && m.drop_first()[i] == ';';
                assert(m[i + 1] == ';');
            }
        }
        lemma_before_semicolon(m.drop_first(), params);
        assert((m + seq![';'] + params).drop_first() =~= m.drop_first() + seq![';'] + params);
        assert((m + seq![';'] + params)[0] == m[0]);
        assert(m[0] != ';') by {
            if m[0] == ';' {
                assert(m.contains(';'));
            }
        }
        assert(seq![m[0]] + m.drop_first() =~= m);
    }
}

/// Whether the check that made a finding of the probe `p` runs for it.
pub open spec fn selected_for(p: Probe, c: Check) -> bool {
    match c {
        Check::Enforced => p.enforced,
        Check::Authority => p.authority,
        Check::SkolemRdf => p.skolem,
        Check::Vocabulary => p.vocabulary,
        Check::Cacheable => p.cacheable,
        Check::Pipeline => p.pipeline,
        Check::Outputs => p.outputs_check,
        _ => false,
    }
}

/// Whether every finding of `fs` is about `p`'s endpoint and was made by a check
/// that runs for `p`.
pub open spec fn all_selected(p: Probe, fs: Seq<FindingView>) -> bool {
    forall|i: int| 0 <= i < fs.len() ==> selected_for(p, (#[trigger] fs[i]).2) && fs[i].0 == p.id@
}

proof fn lemma_all_selected_concat(p: Probe, a: Seq<FindingView>, b: Seq<FindingView>)
    requires
        all_selected(p, a),
        all_selected(p, b),
    ensures
        all_selected(p, a + b),
{
    assert forall|i: int| 0 <= i < (a + b).len() implies selected_for(p, (#[trigger] (a + b)[i]).2)
        && (a + b)[i].0 == p.id@ by {
        if i < a.len() {
            assert((a + b)[i] == a[i]);
        } else {
            assert((a + b)[i] == b[i - a.len()]);
        }
    }
}

proof fn lemma_vocab_selected(p: Probe, face: Seq<char>, terms: Seq<Seq<char>>, vocabulary: Seq<Seq<char>>)
    requires
        p.vocabulary,
    ensures
        all_selected(p, vocab_findings(p, face, terms, vocabulary)),
    decreases terms.len(),
{
    if terms.len() > 0 {
        lemma_vocab_selected(p, face, terms.drop_last(), vocabulary);
        let rest = vocab_findings(p, face, terms.drop_last(), vocabulary);
        let last = vocab_findings(p, face, terms, vocabulary).subrange(rest.len() as int, vocab_findings(p, face, terms, vocabulary).len() as int);
        assert(vocab_findings(p, face, terms, vocabulary) =~= rest + last);
        lemma_all_selected_concat(p, rest, last);
    }
}

proof fn lemma_faces_selected(
    p: Probe,
    e: Evidence,
    rd: Seq<Option<Result<Reading, String>>>,
    vocabulary: Seq<Seq<char>>,
    n: int,
)
    requires
        graphs(p),
        0 <= n <= p.faces@.len(),
    ensures
        all_selected(p, faces_upto(p, e, rd, vocabulary, n).0),
    decreases n,
{
    if n > 0 {
        lemma_faces_selected(p, e, rd, vocabulary, n - 1);
        let st = faces_upto(p, e, rd, vocabulary, n - 1);
        let next = face_step(p, e, rd, vocabulary, n - 1, st);
        assert(selected_for(p, face_check(p)));
        let added = next.0.subrange(st.0.len() as int, next.0.len() as int);
        if next.0.len() >= st.0.len() && next.0.subrange(0, st.0.len() as int) =~= st.0 {
            if p.vocabulary {
                match crate::probe::reading_at(rd, n - 1) {
                    Some(Ok(r)) => lemma_vocab_selected(p, p.faces@[n - 1]@, crate::text::views(r.terms@), vocabulary),
                    _ => {},
                }
            }
            assert(next.0 =~= st.0 + added);
            assert(all_selected(p, added));
            lemma_all_selected_concat(p, st.0, added);
        }
    }
}

/// A check that does not run for an action never reports on it: every finding
/// the invoking checks make of an action comes from a check the suite selected
/// and did not waive for its endpoint.
pub proof fn law_unselected_checks_are_silent(
    p: Probe,
    e: Evidence,
    rd: Seq<Option<Result<Reading, String>>>,
    vocabulary: Seq<Seq<char>>,
)
    ensures
        all_selected(p, judged_findings(p, e, rd, vocabulary)),
{
    let en = enforced_findings(p, e);
    let au = authority_findings(p, e);
    let fa = faces_judged(p, e, rd, vocabulary).0;
    let ca = cacheable_findings(p, e, faces_judged(p, e, rd, vocabulary).2);
    let pi = crate::probe::pipeline_findings(p, e);
    let ou = crate::probe::outputs_findings(p, e, crate::probe::reported_after_cacheable(p, e, rd, vocabulary));
    if graphs(p) {
        lemma_faces_selected(p, e, rd, vocabulary, p.faces@.len() as int);
    }
    assert(all_selected(p, en));
    assert(all_selected(p, au));
    assert(all_selected(p, ca));
    assert(all_selected(p, pi));
    assert(all_selected(p, ou));
    lemma_all_selected_concat(p, en, au);
    lemma_all_selected_concat(p, en + au, fa);
    lemma_all_selected_concat(p, en + au + fa, ca);
    lemma_all_selected_concat(p, en + au + fa + ca, pi);
    lemma_all_selected_concat(p, en + au + fa + ca + pi, ou);
}

/// `ENFORCED` and `AUTHORITY` never both speak about the one resolution under no
/// grants: a declared scope is `ENFORCED`'s in both directions, and a refusal of
/// an undeclared one is `ENFORCED`'s over-offer, not an open write.
pub proof fn law_enforced_and_authority_disjoint(p: Probe, e: Evidence)
    ensures
        enforced_findings(p, e).len() == 0 || (authority_findings(p, e).len() == 0
            && authority_unprobed(p, e).len() == 0),
{
}

/// Declaring an endpoint both cacheable and live, when `CACHEABLE` looks at it,
/// is always reported, before anything the resolutions show.
pub proof fn law_contradictory_declarations_reported(p: Probe, e: Evidence, reported: bool)
    requires
        caching(p),
        p.declared_cacheable,
        p.declared_live,
    ensures
        cacheable_findings(p, e, reported).len() > 0,
        cacheable_findings(p, e, reported)[0] == fv(p, Check::Cacheable, both_detail()),
{
}


/// Whether every finding of `fs` is about `id` and was made by `c`.
pub open spec fn all_about(fs: Seq<FindingView>, id: Seq<char>, c: Check) -> bool {
    forall|i: int| 0 <= i < fs.len() ==> (#[trigger] fs[i]).0 == id && fs[i].2 == c
}

/// Whether every finding of `fs` was made by a check that runs, under `s`, for
/// the endpoint it is about.
pub open spec fn gated(s: Suite, fs: Seq<FindingView>) -> bool {
    forall|i: int| 0 <= i < fs.len() ==> runs(s, (#[trigger] fs[i]).0, fs[i].2)
}

proof fn lemma_about_concat(a: Seq<FindingView>, b: Seq<FindingView>, id: Seq<char>, c: Check)
    requires
        all_about(a, id, c),
        all_about(b, id, c),
    ensures
        all_about(a + b, id, c),
{
    assert forall|i: int| 0 <= i < (a + b).len() implies (#[trigger] (a + b)[i]).0 == id && (a + b)[i].2
        == c by {
        if i < a.len() {
            assert((a + b)[i] == a[i]);
        } else {
            assert((a + b)[i] == b[i - a.len()]);
        }
    }
}

pub(crate) proof fn lemma_gated_concat(s: Suite, a: Seq<FindingView>, b: Seq<FindingView>)
    requires
        gated(s, a),
        gated(s, b),
    ensures
        gated(s, a + b),
{
    assert forall|i: int| 0 <= i < (a + b).len() implies runs(s, (#[trigger] (a + b)[i]).0, (a + b)[i].2) by {
        if i < a.len() {
            assert((a + b)[i] == a[i]);
        } else {
            assert((a + b)[i] == b[i - a.len()]);
        }
    }
}

proof fn lemma_about_gated(s: Suite, fs: Seq<FindingView>, id: Seq<char>, c: Check)
    requires
        all_about(fs, id, c),
        runs(s, id, c) || fs.len() == 0,
    ensures
        gated(s, fs),
{
    assert forall|i: int| 0 <= i < fs.len() implies runs(s, (#[trigger] fs[i]).0, fs[i].2) by {
        assert(fs[i].0 == id && fs[i].2 == c);
    }
}

proof fn lemma_input_about(id: Seq<char>, spec: ActionSpec, k: int)
    ensures
        all_about(input_findings(id, spec, k), id, Check::ArgSpecs),
{
    let input = spec.inputs@[k];
    let verb = Some(spec.verb);
    let name = input.name@;
    let a = if named_before(spec.inputs@, k) {
        seq![(id, verb, Check::ArgSpecs, twice_detail(name))]
    } else {
        Seq::empty()
    };
    let b = match input.class {
        None => seq![(id, verb, Check::ArgSpecs, untyped_detail(name))],
        Some(c) => if !c@.contains(':') {
            seq![(id, verb, Check::ArgSpecs, not_iri_detail(c@, name))]
        } else {
            Seq::empty()
        },
    };
    let c = match input.default {
        Some(d) => (if input.one_of@.len() > 0 && !views(input.one_of@).contains(d@) {
            seq![(id, verb, Check::ArgSpecs, stray_default_detail(name, d@, views(input.one_of@)))]
        } else {
            Seq::empty()
        }) + (if input.required {
            seq![(id, verb, Check::ArgSpecs, required_default_detail(name))]
        } else {
            Seq::empty()
        }),
        None => Seq::empty(),
    };
    assert(all_about(a, id, Check::ArgSpecs));
    assert(all_about(b, id, Check::ArgSpecs));
    match input.default {
        Some(d) => {
            let c1: Seq<FindingView> = if input.one_of@.len() > 0 && !views(input.one_of@).contains(d@) {
                seq![(id, verb, Check::ArgSpecs, stray_default_detail(name, d@, views(input.one_of@)))]
            } else {
                Seq::empty()
            };
            let c2: Seq<FindingView> = if input.required {
                seq![(id, verb, Check::ArgSpecs, required_default_detail(name))]
            } else {
                Seq::empty()
            };
            assert(all_about(c1, id, Check::ArgSpecs));
            assert(all_about(c2, id, Check::ArgSpecs));
            lemma_about_concat(c1, c2, id, Check::ArgSpecs);
            assert(c == c1 + c2);
        },
        None => {},
    }
    assert(all_about(c, id, Check::ArgSpecs));
    lemma_about_concat(a, b, id, Check::ArgSpecs);
    lemma_about_concat(a + b, c, id, Check::ArgSpecs);
    assert(input_findings(id, spec, k) == a + b + c);
}

proof fn lemma_inputs_about(id: Seq<char>, spec: ActionSpec, n: int)
    ensures
        all_about(inputs_findings(id, spec, n), id, Check::ArgSpecs),
    decreases n,
{
    if n > 0 {
        lemma_inputs_about(id, spec, n - 1);
        lemma_input_about(id, spec, n - 1);
        lemma_about_concat(inputs_findings(id, spec, n - 1), input_findings(id, spec, n - 1), id, Check::ArgSpecs);
    }
}

proof fn lemma_actions_about(id: Seq<char>, specs: Seq<ActionSpec>, n: int)
    ensures
        all_about(actions_findings(id, specs, n), id, Check::ArgSpecs),
    decreases n,
{
    if n > 0 {
        lemma_actions_about(id, specs, n - 1);
        let k = specs[n - 1].inputs@.len() as int;
        lemma_inputs_about(id, specs[n - 1], k);
        lemma_about_concat(actions_findings(id, specs, n - 1), inputs_findings(id, specs[n - 1], k), id, Check::ArgSpecs);
    }
}

proof fn lemma_pipeline_static_about(id: Seq<char>, specs: Seq<ActionSpec>, n: int)
    ensures
        all_about(pipeline_static_findings(id, specs, n), id, Check::Pipeline),
    decreases n,
{
    if n > 0 {
        lemma_pipeline_static_about(id, specs, n - 1);
        let prev = pipeline_static_findings(id, specs, n - 1);
        let whole = pipeline_static_findings(id, specs, n);
        let tail = whole.subrange(prev.len() as int, whole.len() as int);
        assert(whole == prev + tail);
        assert(all_about(tail, id, Check::Pipeline));
        lemma_about_concat(prev, tail, id, Check::Pipeline);
    }
}

proof fn lemma_unbound_about(id: Seq<char>, pattern: Seq<char>, spec: ActionSpec, vars: Seq<Seq<char>>, n: int)
    ensures
        all_about(unbound_vars(id, pattern, spec, vars, n), id, Check::ArgSpecs),
    decreases n,
{
    if n > 0 {
        lemma_unbound_about(id, pattern, spec, vars, n - 1);
        let prev = unbound_vars(id, pattern, spec, vars, n - 1);
        let whole = unbound_vars(id, pattern, spec, vars, n);
        let tail = whole.subrange(prev.len() as int, whole.len() as int);
        assert(whole == prev + tail);
        assert(all_about(tail, id, Check::ArgSpecs));
        lemma_about_concat(prev, tail, id, Check::ArgSpecs);
    }
}

proof fn lemma_template_upto_about(
    id: Seq<char>,
    pattern: Seq<char>,
    specs: Seq<ActionSpec>,
    vars: Seq<Seq<char>>,
    n: int,
)
    ensures
        all_about(template_findings_upto(id, pattern, specs, vars, n), id, Check::ArgSpecs),
    decreases n,
{
    if n > 0 {
        lemma_template_upto_about(id, pattern, specs, vars, n - 1);
        lemma_unbound_about(id, pattern, specs[n - 1], vars, vars.len() as int);
        lemma_about_concat(
            template_findings_upto(id, pattern, specs, vars, n - 1),
            unbound_vars(id, pattern, specs[n - 1], vars, vars.len() as int),
            id,
            Check::ArgSpecs,
        );
    }
}

/// What entering an entry finds comes only from checks that run for its id.
pub(crate) proof fn lemma_entered_gated(s: Suite, walked: Seq<String>, pattern: Seq<char>, d: Description)
    ensures
        gated(s, entered_findings(s, walked, pattern, d)),
{
    let id = d.id@;
    let a0: Seq<FindingView> = if d.action_specs@.len() == 0 {
        seq![(id, None, Check::ArgSpecs, no_action_detail())]
    } else {
        Seq::empty()
    };
    assert(all_about(a0, id, Check::ArgSpecs));
    lemma_actions_about(id, d.action_specs@, d.action_specs@.len() as int);
    lemma_about_concat(a0, actions_findings(id, d.action_specs@, d.action_specs@.len() as int), id, Check::ArgSpecs);
    assert(argspecs_findings(d) == a0 + actions_findings(id, d.action_specs@, d.action_specs@.len() as int));
    lemma_pipeline_static_about(id, d.action_specs@, d.action_specs@.len() as int);
    assert(all_about(requires_verb_findings(d), id, Check::RequiresVerb));
    assert(all_about(names_findings(d), id, Check::Names));
    let sa = if runs(s, id, Check::ArgSpecs) { argspecs_findings(d) } else { Seq::empty() };
    let sr = if runs(s, id, Check::RequiresVerb) { requires_verb_findings(d) } else { Seq::empty() };
    let sn = if runs(s, id, Check::Names) { names_findings(d) } else { Seq::empty() };
    let sp = if runs(s, id, Check::Pipeline) {
        pipeline_static_findings(id, d.action_specs@, d.action_specs@.len() as int)
    } else {
        Seq::empty()
    };
    lemma_about_gated(s, sa, id, Check::ArgSpecs);
    lemma_about_gated(s, sr, id, Check::RequiresVerb);
    lemma_about_gated(s, sn, id, Check::Names);
    lemma_about_gated(s, sp, id, Check::Pipeline);
    lemma_gated_concat(s, sa, sr);
    lemma_gated_concat(s, sa + sr, sn);
    lemma_gated_concat(s, sa + sr + sn, sp);
    assert(static_findings(s, d) == sa + sr + sn + sp);
    let st = if !listed(walked, id) { static_findings(s, d) } else { Seq::empty() };
    assert(gated(s, st));
    match pattern_vars(pattern) {
        Some(vars) => lemma_template_upto_about(id, pattern, d.action_specs@, vars, d.action_specs@.len() as int),
        None => {},
    }
    let tf = template_findings(s, pattern, d);
    assert(all_about(tf, id, Check::ArgSpecs));
    lemma_about_gated(s, tf, id, Check::ArgSpecs);
    let gf = target_findings(s, pattern, d);
    assert(all_about(gf, id, Check::ArgSpecs));
    lemma_about_gated(s, gf, id, Check::ArgSpecs);
    lemma_gated_concat(s, st, tf);
    lemma_gated_concat(s, st + tf, gf);
}

/// Every inert-declaration line is gated.
proof fn lemma_inert_gated(s: Suite)
    ensures
        forall|id: Seq<char>, detail: Seq<char>| #[trigger] gated(s, inert_line(s, id, detail)),
        gated(s, Seq::<FindingView>::empty()),
{
}

proof fn lemma_tail_gated(s: Suite, prev: Seq<FindingView>, whole: Seq<FindingView>)
    requires
        gated(s, prev),
        prev.len() <= whole.len(),
        whole.subrange(0, prev.len() as int) == prev,
        gated(s, whole.subrange(prev.len() as int, whole.len() as int)),
    ensures
        gated(s, whole),
{
    lemma_gated_concat(s, prev, whole.subrange(prev.len() as int, whole.len() as int));
    assert(whole == prev + whole.subrange(prev.len() as int, whole.len() as int));
}

proof fn lemma_unheld_gated(s: Suite, c: Coverage, ids: Seq<String>, live: bool)
    ensures
        gated(s, unheld(s, c, ids, live)),
    decreases ids.len(),
{
    lemma_inert_gated(s);
    if ids.len() > 0 {
        lemma_unheld_gated(s, c, ids.drop_last(), live);
        let prev = unheld(s, c, ids.drop_last(), live);
        let whole = unheld(s, c, ids, live);
        assert(whole.subrange(0, prev.len() as int) == prev);
        let tail = whole.subrange(prev.len() as int, whole.len() as int);
        if listed(c.cacheable_ran@, ids.last()@) {
            assert(tail == Seq::<FindingView>::empty());
        } else {
            assert(tail == inert_line(s, ids.last()@, unheld_detail(live, ids.last()@, why_no_cacheable(s, c, ids.last()@))));
        }
        lemma_tail_gated(s, prev, whole);
    }
}

proof fn lemma_unconsulted_gated(s: Suite, c: Coverage, ids: Seq<String>)
    ensures
        gated(s, unconsulted(s, c, ids)),
    decreases ids.len(),
{
    lemma_inert_gated(s);
    if ids.len() > 0 {
        lemma_unconsulted_gated(s, c, ids.drop_last());
        let prev = unconsulted(s, c, ids.drop_last());
        let whole = unconsulted(s, c, ids);
        assert(whole.subrange(0, prev.len() as int) == prev);
        let tail = whole.subrange(prev.len() as int, whole.len() as int);
        if listed(c.pure_consulted@, ids.last()@) || listed(c.cacheable_unresolved@, ids.last()@) {
            assert(tail == Seq::<FindingView>::empty());
        } else {
            assert(tail == inert_line(s, ids.last()@, unconsulted_detail(why_not_consulted(s, c, ids.last()@))));
        }
        lemma_tail_gated(s, prev, whole);
    }
}

proof fn lemma_unused_namespaces_gated(s: Suite, c: Coverage, nss: Seq<String>)
    ensures
        gated(s, unused_namespaces(s, c, nss)),
    decreases nss.len(),
{
    lemma_inert_gated(s);
    if nss.len() > 0 {
        lemma_unused_namespaces_gated(s, c, nss.drop_last());
        let prev = unused_namespaces(s, c, nss.drop_last());
        let whole = unused_namespaces(s, c, nss);
        assert(whole.subrange(0, prev.len() as int) == prev);
        let tail = whole.subrange(prev.len() as int, whole.len() as int);
        if listed(c.namespaces_used@, nss.last()@) {
            assert(tail == Seq::<FindingView>::empty());
        } else {
            assert(tail == inert_line(s, SUITE@, unused_namespace_detail(nss.last()@, why_unused(s, c))));
        }
        lemma_tail_gated(s, prev, whole);
    }
}

proof fn lemma_stray_gated(s: Suite, c: Coverage, f: Fixture, n: int)
    ensures
        gated(s, stray_bindings(s, c, f, n)),
    decreases n,
{
    lemma_inert_gated(s);
    if n > 0 {
        lemma_stray_gated(s, c, f, n - 1);
        let prev = stray_bindings(s, c, f, n - 1);
        let whole = stray_bindings(s, c, f, n);
        assert(whole.subrange(0, prev.len() as int) == prev);
        let tail = whole.subrange(prev.len() as int, whole.len() as int);
        if known_var(c, f.id@, f.bindings@[n - 1].0@) {
            assert(tail == Seq::<FindingView>::empty());
        } else {
            assert(tail == inert_line(s, f.id@, stray_binding_detail(c, f, f.bindings@[n - 1].0@)));
        }
        lemma_tail_gated(s, prev, whole);
    }
}

proof fn lemma_fixtures_gated(s: Suite, c: Coverage, fs: Seq<Fixture>)
    ensures
        gated(s, fixtures_inert(s, c, fs)),
    decreases fs.len(),
{
    lemma_inert_gated(s);
    if fs.len() > 0 {
        lemma_fixtures_gated(s, c, fs.drop_last());
        let f = fs.last();
        lemma_stray_gated(s, c, f, f.bindings@.len() as int);
        if listed(c.walked@, f.id@) {
            let st = stray_bindings(s, c, f, f.bindings@.len() as int);
            let rest: Seq<FindingView> = if f.args@.len() == 0 {
                Seq::empty()
            } else if !has_action(c.actions@, f.id@, f.verb) {
                inert_line(s, f.id@, undeclared_action_detail(c, f))
            } else if has_action(c.opted_out@, f.id@, f.verb) {
                inert_line(s, f.id@, excluded_action_detail(f))
            } else {
                Seq::empty()
            };
            assert(gated(s, rest));
            lemma_gated_concat(s, st, rest);
            assert(fixture_inert(s, c, f) == st + rest);
        }
        assert(gated(s, fixture_inert(s, c, f)));
        lemma_gated_concat(s, fixtures_inert(s, c, fs.drop_last()), fixture_inert(s, c, f));
    }
}

proof fn lemma_idle_opt_outs_gated(s: Suite, c: Coverage, os: Seq<crate::report::OptedOut>)
    ensures
        gated(s, idle_opt_outs(s, c, os)),
    decreases os.len(),
{
    lemma_inert_gated(s);
    if os.len() > 0 {
        lemma_idle_opt_outs_gated(s, c, os.drop_last());
        let prev = idle_opt_outs(s, c, os.drop_last());
        let whole = idle_opt_outs(s, c, os);
        assert(whole.subrange(0, prev.len() as int) == prev);
        let tail = whole.subrange(prev.len() as int, whole.len() as int);
        if has_any_action(c.opted_out@, os.last().endpoint@, os.last().verb) {
            assert(tail == Seq::<FindingView>::empty());
        } else {
            assert(tail == inert_line(
                s,
                os.last().endpoint@,
                "opted out of the invoking checks ("@ + os.last().reason@ + ") but excluded nothing: "@
                    + why_excluded_nothing(c, os.last().endpoint@, os.last().verb),
            ));
        }
        lemma_tail_gated(s, prev, whole);
    }
}

proof fn lemma_idle_waivers_gated(s: Suite, c: Coverage, ws: Seq<crate::report::OptedOutCheck>)
    ensures
        gated(s, idle_waivers(s, c, ws)),
    decreases ws.len(),
{
    lemma_inert_gated(s);
    if ws.len() > 0 {
        lemma_idle_waivers_gated(s, c, ws.drop_last());
        let prev = idle_waivers(s, c, ws.drop_last());
        let whole = idle_waivers(s, c, ws);
        assert(whole.subrange(0, prev.len() as int) == prev);
        let tail = whole.subrange(prev.len() as int, whole.len() as int);
        match crate::walk::unreachable(s, c, ws.last().endpoint@, ws.last().check, false) {
            None => assert(tail == Seq::<FindingView>::empty()),
            Some(why) => assert(tail == inert_line(
                s,
                ws.last().endpoint@,
                "waived "@ + check_label(ws.last().check) + " ("@ + ws.last().reason@
                    + ") but that check could not have run for it anyway: "@ + why,
            )),
        }
        lemma_tail_gated(s, prev, whole);
    }
}

/// What the declaration checks find comes only from `DECLARATIONS` where it runs.
pub(crate) proof fn lemma_declarations_gated(s: Suite, c: Coverage)
    ensures
        gated(s, declaration_findings(s, c)),
{
    let a = unheld(s, c, s.live@, true);
    let b = unheld(s, c, s.cacheable@, false);
    let u = unconsulted(s, c, s.pure@);
    let n = unused_namespaces(s, c, s.namespaces@);
    let f = fixtures_inert(s, c, s.fixtures@);
    let o = idle_opt_outs(s, c, s.opt_outs@);
    let w = idle_waivers(s, c, s.opt_out_checks@);
    lemma_unheld_gated(s, c, s.live@, true);
    lemma_unheld_gated(s, c, s.cacheable@, false);
    lemma_unconsulted_gated(s, c, s.pure@);
    lemma_unused_namespaces_gated(s, c, s.namespaces@);
    lemma_fixtures_gated(s, c, s.fixtures@);
    lemma_idle_opt_outs_gated(s, c, s.opt_outs@);
    lemma_idle_waivers_gated(s, c, s.opt_out_checks@);
    lemma_gated_concat(s, a, b);
    lemma_gated_concat(s, a + b, u);
    lemma_gated_concat(s, a + b + u, n);
    lemma_gated_concat(s, a + b + u + n, f);
    lemma_gated_concat(s, a + b + u + n + f, o);
    lemma_gated_concat(s, a + b + u + n + f + o, w);
}

/// What the invoking checks find of a probe the walk planned comes only from
/// checks that run for its endpoint.
pub(crate) proof fn lemma_judged_gated(
    s: Suite,
    id: Seq<char>,
    target: Seq<char>,
    spec: ActionSpec,
    p: Probe,
    e: Evidence,
    rd: Seq<Option<Result<Reading, String>>>,
    vocabulary: Seq<Seq<char>>,
)
    requires
        planned(s, id, target, spec, p),
    ensures
        gated(s, judged_findings(p, e, rd, vocabulary)),
{
    law_unselected_checks_are_silent(p, e, rd, vocabulary);
    let fs = judged_findings(p, e, rd, vocabulary);
    assert forall|i: int| 0 <= i < fs.len() implies runs(s, (#[trigger] fs[i]).0, fs[i].2) by {
        assert(selected_for(p, fs[i].2) && fs[i].0 == p.id@);
    }
}

/// A check that does not run for an endpoint never reports on it, over a whole
/// walk: every finding a walk's steps add — entering an entry, the judgement of
/// a probe [`Walk::enter`](crate::walk::Walk::enter) planned, and the declaration
/// checks [`Walk::finish`](crate::walk::Walk::finish) adds — was made by a check
/// the suite selected and did not waive for the endpoint the finding is about.
pub proof fn law_walk_findings_are_selected(
    s: Suite,
    walked: Seq<String>,
    pattern: Seq<char>,
    d: Description,
    c: Coverage,
    target: Seq<char>,
    spec: ActionSpec,
    p: Probe,
    e: Evidence,
    rd: Seq<Option<Result<Reading, String>>>,
    vocabulary: Seq<Seq<char>>,
)
    requires
        planned(s, d.id@, target, spec, p),
    ensures
        gated(s, entered_findings(s, walked, pattern, d)),
        gated(s, judged_findings(p, e, rd, vocabulary)),
        gated(s, declaration_findings(s, c)),
{
    lemma_entered_gated(s, walked, pattern, d);
    lemma_judged_gated(s, d.id@, target, spec, p, e, rd, vocabulary);
    lemma_declarations_gated(s, c);
}


/// Parsing goes by the bare media type alone: the bare form of a bare media type
/// is itself, so `parse(m, bytes)` and `parse` of `m`'s bare form (two results
/// that meet `parse`'s contract) succeed or fail together, read the same graph
/// (their triples differ at most in the labels of blank nodes, which the parser
/// draws at random), and refuse an unknown media type with the same message.
pub proof fn law_parse_reads_the_bare_type(
    m: Seq<char>,
    bytes: Seq<u8>,
    r1: Result<Vec<Triple>, String>,
    r2: Result<Vec<Triple>, String>,
)
    requires
        parsed(bare(m), bytes, r1),
        parsed(bare(bare(m)), bytes, r2),
    ensures
        bare(bare(m)) == bare(m),
        (r1 is Ok) == (r2 is Ok),
        r1 is Ok ==> (rdf_graph(bare(m), bytes) matches Some(g) && reads_as(r1->Ok_0@, g) && reads_as(
            r2->Ok_0@,
            g,
        )),
        !rdf_media_known(bare(m)) ==> r1 is Err && r2 is Err && r1->Err_0@ == r2->Err_0@,
{
    lemma_bare_idempotent(m);
}


/// `NAMES` reports an id exactly when it is not a kebab-case noun — empty,
/// beginning or ending with `-`, holding `--`, or holding any character other
/// than a lower-case ASCII letter, an ASCII digit or `-` (so `tag_suggest` and
/// `TagSuggest` are reported) — and then once, about that id.
pub proof fn law_names_reports_exactly_non_kebab_ids(d: Description)
    ensures
        names_findings(d).len() <= 1,
        names_findings(d).len() == 1 <==> (d.id@.len() == 0 || d.id@[0] == '-' || d.id@.last() == '-'
            || (exists|i: int|
            0 <= i < d.id@.len() && !(('a' <= #[trigger] d.id@[i] && d.id@[i] <= 'z') || ('0' <= d.id@[i]
                && d.id@[i] <= '9') || d.id@[i] == '-')) || (exists|i: int|
            0 <= i < d.id@.len() - 1 && #[trigger] d.id@[i] == '-' && d.id@[i + 1] == '-')),
        names_findings(d).len() == 1 ==> names_findings(d)[0] == (
            d.id@,
            None::<Verb>,
            Check::Names,
            not_kebab_detail(d.id@),
        ),
{
}

/// `REQUIRES-VERB` reports a description that declares `requires` but no verb
/// other than `Meta` (which yields no action, so the scope binds nothing), once,
/// quoting its scopes; and says nothing of any other description.
pub proof fn law_requires_without_a_verb_is_reported(d: Description)
    ensures
        (d.requires@.len() > 0 && forall|i: int| 0 <= i < d.verbs@.len() ==> #[trigger] d.verbs@[i] == Verb::Meta)
            ==> requires_verb_findings(d) == seq![
            (d.id@, None::<Verb>, Check::RequiresVerb, inert_requires_detail(views(d.requires@))),
        ],
        (d.requires@.len() == 0 || exists|i: int| 0 <= i < d.verbs@.len() && #[trigger] d.verbs@[i] != Verb::Meta)
            ==> requires_verb_findings(d).len() == 0,
{
}

proof fn lemma_contains_concat(x: Seq<FindingView>, y: Seq<FindingView>, e: FindingView)
    ensures
        x.contains(e) ==> (x + y).contains(e),
        y.contains(e) ==> (x + y).contains(e),
{
    if x.contains(e) {
        let i = choose|i: int| 0 <= i < x.len() && x[i] == e;
        assert((x + y)[i] == e);
    }
    if y.contains(e) {
        let i = choose|i: int| 0 <= i < y.len() && y[i] == e;
        assert((x + y)[x.len() + i] == e);
    }
}

proof fn lemma_inputs_contain(id: Seq<char>, spec: ActionSpec, n: int, k: int, e: FindingView)
    requires
        0 <= k < n,
        input_findings(id, spec, k).contains(e),
    ensures
        inputs_findings(id, spec, n).contains(e),
    decreases n,
{
    if k < n - 1 {
        lemma_inputs_contain(id, spec, n - 1, k, e);
    }
    lemma_contains_concat(inputs_findings(id, spec, n - 1), input_findings(id, spec, n - 1), e);
}

proof fn lemma_actions_contain(id: Seq<char>, specs: Seq<ActionSpec>, n: int, a: int, e: FindingView)
    requires
        0 <= a < n,
        inputs_findings(id, specs[a], specs[a].inputs@.len() as int).contains(e),
    ensures
        actions_findings(id, specs, n).contains(e),
    decreases n,
{
    if a < n - 1 {
        lemma_actions_contain(id, specs, n - 1, a, e);
    }
    lemma_contains_concat(
        actions_findings(id, specs, n - 1),
        inputs_findings(id, specs[n - 1], specs[n - 1].inputs@.len() as int),
        e,
    );
}

/// `ARGSPECS` reports every input whose class has no scheme (no `:`, so it is
/// not an IRI), naming the class and the input, on the action that declares it.
pub proof fn law_argspecs_reports_schemeless_classes(d: Description, a: int, k: int)
    requires
        0 <= a < d.action_specs@.len(),
        0 <= k < d.action_specs@[a].inputs@.len(),
        d.action_specs@[a].inputs@[k].class is Some,
        !d.action_specs@[a].inputs@[k].class->Some_0@.contains(':'),
    ensures
        argspecs_findings(d).contains(
            (
                d.id@,
                Some(d.action_specs@[a].verb),
                Check::ArgSpecs,
                "class `"@ + d.action_specs@[a].inputs@[k].class->Some_0@ + "` of input `"@
                    + d.action_specs@[a].inputs@[k].name@ + "` is not an IRI (no scheme)"@,
            ),
        ),
{
    let id = d.id@;
    let spec = d.action_specs@[a];
    let input = spec.inputs@[k];
    let verb = Some(spec.verb);
    let name = input.name@;
    let c = input.class->Some_0;
    let e = (id, verb, Check::ArgSpecs, not_iri_detail(c@, name));
    let x: Seq<FindingView> = if named_before(spec.inputs@, k) {
        seq![(id, verb, Check::ArgSpecs, twice_detail(name))]
    } else {
        Seq::empty()
    };
    let y: Seq<FindingView> = seq![e];
    let z: Seq<FindingView> = match input.default {
        Some(dv) => (if input.one_of@.len() > 0 && !views(input.one_of@).contains(dv@) {
            seq![(id, verb, Check::ArgSpecs, stray_default_detail(name, dv@, views(input.one_of@)))]
        } else {
            Seq::empty()
        }) + (if input.required {
            seq![(id, verb, Check::ArgSpecs, required_default_detail(name))]
        } else {
            Seq::empty()
        }),
        None => Seq::empty(),
    };
    assert(input_findings(id, spec, k) == x + y + z);
    assert(y[0] == e);
    lemma_contains_concat(x, y, e);
    lemma_contains_concat(x + y, z, e);
    lemma_inputs_contain(id, spec, spec.inputs@.len() as int, k, e);
    lemma_actions_contain(id, d.action_specs@, d.action_specs@.len() as int, a, e);
    let a0: Seq<FindingView> = if d.action_specs@.len() == 0 {
        seq![(id, None, Check::ArgSpecs, no_action_detail())]
    } else {
        Seq::empty()
    };
    lemma_contains_concat(a0, actions_findings(id, d.action_specs@, d.action_specs@.len() as int), e);
    assert(argspecs_findings(d) == a0 + actions_findings(id, d.action_specs@, d.action_specs@.len() as int));
}


/// Whether `line` stands somewhere in `text`.
pub open spec fn infix(line: Seq<char>, text: Seq<char>) -> bool {
    exists|a: int| 0 <= a && a + line.len() <= text.len() && #[trigger] text.subrange(a, a + line.len()) == line
}

/// A waiver line of a report: the ids, the check's label, the reason.
pub open spec fn waiver_line(ids: Seq<Seq<char>>, check: Check, reason: Seq<char>) -> Seq<char> {
    "opted out: "@ + joined(ids, " "@) + " "@ + check_label(check) + ": "@ + reason + "\n"@
}

/// Whether every id of `ids` is that of a waiver of `w` with check `check` and
/// reason `reason`, and `id` is among them.
pub open spec fn ids_share(
    ids: Seq<Seq<char>>,
    w: Seq<OptedOutCheck>,
    id: Seq<char>,
    check: Check,
    reason: Seq<char>,
) -> bool {
    &&& ids.contains(id)
    &&& forall|x: Seq<char>|
        ids.contains(x) ==> exists|j: int|
            0 <= j < w.len() && #[trigger] w[j].endpoint@ == x && w[j].check == check && w[j].reason@
                == reason
}

/// The first waiver at or before `k` that shares `w[k]`'s check and reason
/// starts its group.
proof fn lemma_group_first(w: Seq<OptedOutCheck>, k: int) -> (g: int)
    requires
        0 <= k < w.len(),
    ensures
        0 <= g <= k,
        first_of_group(w, g),
        w[g].check == w[k].check,
        w[g].reason@ == w[k].reason@,
    decreases k,
{
    if first_of_group(w, k) {
        k
    } else {
        let j = choose|j: int| 0 <= j < k && same_waiver(#[trigger] w[j], w[k]);
        lemma_group_first(w, j)
    }
}

proof fn lemma_grouped_ids(w: Seq<OptedOutCheck>, o: OptedOutCheck, k: int)
    requires
        0 <= k < w.len(),
        w[k].check == o.check,
        w[k].reason@ == o.reason@,
    ensures
        grouped_ids(w, o).contains(w[k].endpoint@),
        forall|x: Seq<char>|
            grouped_ids(w, o).contains(x) ==> exists|j: int|
                0 <= j < w.len() && #[trigger] w[j].endpoint@ == x && w[j].check == o.check && w[j].reason@
                    == o.reason@,
    decreases w.len(),
{
    let rest = w.drop_last();
    if k < w.len() - 1 {
        assert(rest[k] == w[k]);
        lemma_grouped_ids(rest, o, k);
        let i = choose|i: int| 0 <= i < grouped_ids(rest, o).len() && grouped_ids(rest, o)[i] == w[k].endpoint@;
        if same_waiver(w.last(), o) {
            assert(grouped_ids(w, o)[i] == w[k].endpoint@);
        }
    } else {
        assert(same_waiver(w.last(), o));
        let ids = grouped_ids(w, o);
        assert(ids[ids.len() - 1] == w[k].endpoint@);
    }
    lemma_grouped_ids_only(w, o);
}

proof fn lemma_grouped_ids_only(w: Seq<OptedOutCheck>, o: OptedOutCheck)
    ensures
        forall|x: Seq<char>|
            grouped_ids(w, o).contains(x) ==> exists|j: int|
                0 <= j < w.len() && #[trigger] w[j].endpoint@ == x && w[j].check == o.check && w[j].reason@
                    == o.reason@,
    decreases w.len(),
{
    if w.len() > 0 {
        let rest = w.drop_last();
        lemma_grouped_ids_only(rest, o);
        assert forall|x: Seq<char>| grouped_ids(w, o).contains(x) implies exists|j: int|
            0 <= j < w.len() && #[trigger] w[j].endpoint@ == x && w[j].check == o.check && w[j].reason@
                == o.reason@ by {
            if same_waiver(w.last(), o) && x == w.last().endpoint@ {
                assert(w[w.len() - 1].endpoint@ == x);
            } else {
                if same_waiver(w.last(), o) {
                    let i = choose|i: int| 0 <= i < grouped_ids(w, o).len() && grouped_ids(w, o)[i] == x;
                    assert(grouped_ids(w, o) == grouped_ids(rest, o).push(w.last().endpoint@));
                    assert(grouped_ids(rest, o)[i] == x);
                }
                assert(grouped_ids(rest, o).contains(x));
                let j = choose|j: int|
                    0 <= j < rest.len() && #[trigger] rest[j].endpoint@ == x && rest[j].check == o.check
                        && rest[j].reason@ == o.reason@;
                assert(w[j] == rest[j]);
            }
        }
    }
}

proof fn lemma_grouped_text_prefix(w: Seq<OptedOutCheck>, m: int, n: int)
    requires
        0 <= m <= n,
    ensures
        grouped_text(w, m).len() <= grouped_text(w, n).len(),
        grouped_text(w, n).subrange(0, grouped_text(w, m).len() as int) == grouped_text(w, m),
    decreases n - m,
{
    if m < n {
        lemma_grouped_text_prefix(w, m, n - 1);
        let a = grouped_text(w, m);
        let b = grouped_text(w, n - 1);
        let c = grouped_text(w, n);
        assert(c.subrange(0, b.len() as int) =~= b);
        assert(c.subrange(0, a.len() as int) =~= b.subrange(0, a.len() as int));
    } else {
        assert(grouped_text(w, n).subrange(0, grouped_text(w, n).len() as int) =~= grouped_text(w, n));
    }
}

/// A line that stands at `at` in `y` stands in `x + y + z`.
proof fn lemma_infix_within(x: Seq<char>, y: Seq<char>, z: Seq<char>, line: Seq<char>, at: int)
    requires
        0 <= at && at + line.len() <= y.len(),
        y.subrange(at, at + line.len()) == line,
    ensures
        infix(line, x + y + z),
{
    let t = x + y + z;
    let b: int = x.len() + at;
    assert(t.subrange(b, b + line.len()) =~= line) by {
        assert forall|i: int| 0 <= i < line.len() implies t.subrange(b, b + line.len())[i] == line[i] by {
            assert(t[b + i] == y[at + i]);
            assert(y.subrange(at, at + line.len())[i] == y[at + i]);
        }
    }
}

/// The part of a report's text before its waiver lines.
pub open spec fn text_before_waivers(r: Report) -> Seq<char> {
    findings_block(r.findings@) + summary_text(r) + coverage_text(r) + probed_section(r.probed@)
        + opted_out_block(r.declared.opted_out@)
}

/// The part of a report's text after its waiver lines.
pub open spec fn text_after_waivers(r: Report) -> Seq<char> {
    let d = *r.declared;
    list_text("declared pure: "@, d.pure@) + list_text("declared cacheable: "@, d.cacheable@)
        + list_text("declared live: "@, d.live@) + list_text("module namespaces: "@, d.namespaces@)
        + fixtures_block(d.fixtures@) + unprobed_block(r.unprobed@)
}

proof fn lemma_report_text_parts(r: Report)
    ensures
        report_text(r) == text_before_waivers(r) + grouped_text(
            r.declared.opted_out_checks@,
            r.declared.opted_out_checks@.len() as int,
        ) + text_after_waivers(r),
{
    assert(report_text(r) =~= text_before_waivers(r) + grouped_text(
        r.declared.opted_out_checks@,
        r.declared.opted_out_checks@.len() as int,
    ) + text_after_waivers(r));
}

/// The line of `w[k]`'s group stands in the waiver lines.
proof fn lemma_waiver_line_in_text(w: Seq<OptedOutCheck>, k: int) -> (g: int)
    requires
        0 <= k < w.len(),
    ensures
        0 <= g <= k,
        ids_share(grouped_ids(w, w[g]), w, w[k].endpoint@, w[k].check, w[k].reason@),
        grouped_text(w, g).len() + waiver_line(grouped_ids(w, w[g]), w[k].check, w[k].reason@).len()
            <= grouped_text(w, w.len() as int).len(),
        grouped_text(w, w.len() as int).subrange(
            grouped_text(w, g).len() as int,
            grouped_text(w, g).len() + waiver_line(grouped_ids(w, w[g]), w[k].check, w[k].reason@).len() as int,
        ) == waiver_line(grouped_ids(w, w[g]), w[k].check, w[k].reason@),
{
    let g = lemma_group_first(w, k);
    lemma_grouped_ids(w, w[g], k);
    let ids = grouped_ids(w, w[g]);
    let line = waiver_line(ids, w[k].check, w[k].reason@);
    let n = w.len() as int;
    lemma_grouped_text_prefix(w, g + 1, n);
    let before = grouped_text(w, g);
    let upto = grouped_text(w, g + 1);
    assert(upto =~= before + line);
    let gt = grouped_text(w, n);
    let bl: int = before.len() as int;
    let ll: int = line.len() as int;
    assert(gt.subrange(bl, bl + ll) =~= line) by {
        assert forall|i: int| 0 <= i < ll implies gt.subrange(bl, bl + ll)[i] == line[i] by {
            assert(gt[bl + i] == gt.subrange(0, upto.len() as int)[bl + i]);
            assert(upto[bl + i] == line[i]);
        }
    }
    g
}

/// Every waiver a report declares is printed on a line that names its id, its
/// check and its own reason; the ids printed with it are those of waivers with
/// the same check and the same reason (identical waivers share one line, and no
/// waiver's reason is lost to another's).
pub proof fn law_each_waiver_is_printed_with_its_reason(r: Report, k: int)
    requires
        0 <= k < r.declared.opted_out_checks@.len(),
    ensures
        exists|ids: Seq<Seq<char>>|
            ids_share(
                ids,
                r.declared.opted_out_checks@,
                r.declared.opted_out_checks@[k].endpoint@,
                r.declared.opted_out_checks@[k].check,
                r.declared.opted_out_checks@[k].reason@,
            ) && #[trigger] infix(
                waiver_line(
                    ids,
                    r.declared.opted_out_checks@[k].check,
                    r.declared.opted_out_checks@[k].reason@,
                ),
                report_text(r),
            ),
{
    let w = r.declared.opted_out_checks@;
    let g = lemma_waiver_line_in_text(w, k);
    let ids = grouped_ids(w, w[g]);
    let line = waiver_line(ids, w[k].check, w[k].reason@);
    lemma_report_text_parts(r);
    lemma_infix_within(
        text_before_waivers(r),
        grouped_text(w, w.len() as int),
        text_after_waivers(r),
        line,
        grouped_text(w, g).len() as int,
    );
}


/// `ARGSPECS` never calls a class with a scheme (one holding `:`) not an IRI:
/// what it finds in such an input is only about the input itself.
pub proof fn law_argspecs_spares_classes_with_a_scheme(id: Seq<char>, spec: ActionSpec, k: int)
    requires
        0 <= k < spec.inputs@.len(),
        spec.inputs@[k].class is Some,
        spec.inputs@[k].class->Some_0@.contains(':'),
    ensures
        !input_findings(id, spec, k).contains(
            (
                id,
                Some(spec.verb),
                Check::ArgSpecs,
                "class `"@ + spec.inputs@[k].class->Some_0@ + "` of input `"@ + spec.inputs@[k].name@
                    + "` is not an IRI (no scheme)"@,
            ),
        ),
{
    reveal_strlit("class `");
    reveal_strlit("input `");
    let input = spec.inputs@[k];
    let name = input.name@;
    let fs = input_findings(id, spec, k);
    let target = "class `"@ + input.class->Some_0@ + "` of input `"@ + name + "` is not an IRI (no scheme)"@;
    assert(target[0] == 'c');
    assert forall|i: int| 0 <= i < fs.len() implies (#[trigger] fs[i]).3.len() > 0 && fs[i].3[0] == 'i' by {
        let verb = Some(spec.verb);
        let x: Seq<FindingView> = if named_before(spec.inputs@, k) {
            seq![(id, verb, Check::ArgSpecs, twice_detail(name))]
        } else {
            Seq::empty()
        };
        let z: Seq<FindingView> = match input.default {
            Some(dv) => (if input.one_of@.len() > 0 && !views(input.one_of@).contains(dv@) {
                seq![(id, verb, Check::ArgSpecs, stray_default_detail(name, dv@, views(input.one_of@)))]
            } else {
                Seq::empty()
            }) + (if input.required {
                seq![(id, verb, Check::ArgSpecs, required_default_detail(name))]
            } else {
                Seq::empty()
            }),
            None => Seq::empty(),
        };
        assert(fs =~= x + z);
        assert(("input `"@ + name)[0] == 'i');
        if i < x.len() {
            assert(fs[i] == x[i]);
            assert(twice_detail(name)[0] == 'i');
        } else {
            assert(fs[i] == z[i - x.len()]);
            match input.default {
                Some(dv) => {
                    assert(stray_default_detail(name, dv@, views(input.one_of@))[0] == 'i');
                    assert(required_default_detail(name)[0] == 'i');
                    let z1: Seq<FindingView> = if input.one_of@.len() > 0 && !views(input.one_of@).contains(dv@) {
                        seq![(id, verb, Check::ArgSpecs, stray_default_detail(name, dv@, views(input.one_of@)))]
                    } else {
                        Seq::empty()
                    };
                    if i - x.len() < z1.len() {
                        assert(z[i - x.len()] == z1[i - x.len()]);
                    } else {
                        assert(z[i - x.len()] == (z.subrange(z1.len() as int, z.len() as int))[i - x.len() - z1.len()]);
                    }
                },
                None => {},
            }
        }
    }
    if fs.contains((id, Some(spec.verb), Check::ArgSpecs, target)) {
        let i = choose|i: int| 0 <= i < fs.len() && fs[i] == (id, Some(spec.verb), Check::ArgSpecs, target);
        assert(fs[i].3[0] == 'i');
    }
}

} // verus!
