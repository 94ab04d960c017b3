//! The checks that read a description alone: `ARGSPECS`, `REQUIRES-VERB`,
//! `NAMES`, and the static half of `PIPELINE`.
use crate::checks::Check;
use crate::model::{mutating_verb, ActionSpec, ArgSpec, Description, InputSource, Verb};
use crate::report::{fviews, push_finding, Finding, FindingView};
use crate::text::{append, has_char, is_listed, join, joined, owned, same, views};
use vstd::prelude::*;

verus! {

/// `` `a`, `b` `` — each item in backquotes, joined by commas.
pub open spec fn quoted(items: Seq<Seq<char>>) -> Seq<char> {
    joined(items.map_values(|x: Seq<char>| "`"@ + x + "`"@), ", "@)
}

/// `` `a`, `b` `` for a list of strings.
pub fn quote_all(items: &Vec<String>) -> (r: String)
    ensures
        r@ == quoted(views(items@)),
{
    let mut q: Vec<String> = Vec::new();
    let mut i: usize = 0;
    while i < items.len()
        invariant
            i <= items@.len(),
            views(q@) == views(items@).take(i as int).map_values(|x: Seq<char>| "`"@ + x + "`"@),
        decreases items@.len() - i,
    {
        let mut s = owned("`");
        append(&mut s, items[i].as_str());
        append(&mut s, "`");
        let ghost before = views(q@);
        q.push(s);
        proof {
            assert(views(q@) =~= before.push(s@));
            assert(views(items@).take(i + 1).map_values(|x: Seq<char>| "`"@ + x + "`"@)
                =~= views(items@).take(i as int).map_values(|x: Seq<char>| "`"@ + x + "`"@).push(
                "`"@ + items@[i as int]@ + "`"@,
            ));
        }
        i = i + 1;
    }
    assert(views(items@).take(items@.len() as int) =~= views(items@));
    join(&q, ", ")
}

// ----- ARGSPECS -------------------------------------------------------------------

/// The detail for a description with no selectable verb.
pub open spec fn no_action_detail() -> Seq<char> {
    "declares no action: no verb other than Meta, so nothing is selectable and no `requires` can be enforced (`.verb(Verb::Source)` or `.action(…)`)"@
}

/// The detail for an input declared twice.
pub open spec fn twice_detail(name: Seq<char>) -> Seq<char> {
    "input `"@ + name + "` is declared twice"@
}

/// The detail for an input with no class.
pub open spec fn untyped_detail(name: Seq<char>) -> Seq<char> {
    "input `"@ + name
        + "` has no class: declare an rdfs:Class IRI for an entity or an XSD datatype IRI for a scalar (`.class(\"http://www.w3.org/2001/XMLSchema#string\")`)"@
}

/// The detail for a class that is not an IRI.
pub open spec fn not_iri_detail(class: Seq<char>, name: Seq<char>) -> Seq<char> {
    "class `"@ + class + "` of input `"@ + name + "` is not an IRI (no scheme)"@
}

/// The detail for a default outside the declared values.
pub open spec fn stray_default_detail(name: Seq<char>, default: Seq<char>, one_of: Seq<Seq<char>>) -> Seq<char> {
    "input `"@ + name + "` defaults to `"@ + default + "`, which is not one of its declared values ("@
        + joined(one_of, ", "@) + ")"@
}

/// The detail for a required input with a default.
pub open spec fn required_default_detail(name: Seq<char>) -> Seq<char> {
    "input `"@ + name + "` has a default but is marked required: a default implies optional"@
}

/// Whether an input before index `k` has the name of the input at `k`.
pub open spec fn named_before(inputs: Seq<ArgSpec>, k: int) -> bool {
    exists|j: int| 0 <= j < k && #[trigger] inputs[j].name@ == inputs[k].name@
}

/// What `ARGSPECS` finds in the input at `k` of an action.
pub open spec fn input_findings(id: Seq<char>, spec: ActionSpec, k: int) -> Seq<FindingView> {
    let input = spec.inputs@[k];
    let verb = Some(spec.verb);
    let name = input.name@;
    (if named_before(spec.inputs@, k) {
        seq![(id, verb, Check::ArgSpecs, twice_detail(name))]
    } else {
        Seq::empty()
    }) + (match input.class {
        None => seq![(id, verb, Check::ArgSpecs, untyped_detail(name))],
        Some(c) => if !c@.contains(':') {
            seq![(id, verb, Check::ArgSpecs, not_iri_detail(c@, name))]
        } else {
            Seq::empty()
        },
    }) + (match input.default {
        Some(d) => (if input.one_of@.len() > 0 && !views(input.one_of@).contains(d@) {
            seq![(id, verb, Check::ArgSpecs, stray_default_detail(name, d@, views(input.one_of@)))]
        } else {
            Seq::empty()
        }) + (if input.required {
            seq![(id, verb, Check::ArgSpecs, required_default_detail(name))]
        } else {
            Seq::empty()
        }),
        None => Seq::empty(),
    })
}

/// What `ARGSPECS` finds in the first `n` inputs of an action.
pub open spec fn inputs_findings(id: Seq<char>, spec: ActionSpec, n: int) -> Seq<FindingView>
    decreases n,
{
    if n <= 0 {
        Seq::empty()
    } else {
        inputs_findings(id, spec, n - 1) + input_findings(id, spec, n - 1)
    }
}

/// What `ARGSPECS` finds in the first `n` actions.
pub open spec fn actions_findings(id: Seq<char>, specs: Seq<ActionSpec>, n: int) -> Seq<FindingView>
    decreases n,
{
    if n <= 0 {
        Seq::empty()
    } else {
        actions_findings(id, specs, n - 1) + inputs_findings(
            id,
            specs[n - 1],
            specs[n - 1].inputs@.len() as int,
        )
    }
}

/// What `ARGSPECS` finds in a description: no selectable action, and every
/// input's faults in declaration order.
pub open spec fn argspecs_findings(d: Description) -> Seq<FindingView> {
    (if d.action_specs@.len() == 0 {
        seq![(d.id@, None, Check::ArgSpecs, no_action_detail())]
    } else {
        Seq::empty()
    }) + actions_findings(d.id@, d.action_specs@, d.action_specs@.len() as int)
}

/// Records what `ARGSPECS` finds in one input.
fn check_input(findings: &mut Vec<Finding>, id: &str, spec: &ActionSpec, k: usize)
    requires
        k < spec.inputs@.len(),
    ensures
        fviews(final(findings)@) == fviews(old(findings)@) + input_findings(id@, *spec, k as int),
{
    let ghost start = fviews(findings@);
    let input = &spec.inputs[k];
    let verb = Some(spec.verb);
    let mut seen = false;
    let mut j: usize = 0;
    while j < k
        invariant
            j <= k < spec.inputs@.len(),
            *input == spec.inputs@[k as int],
            seen == exists|m: int| 0 <= m < j && #[trigger] spec.inputs@[m].name@ == input.name@,
        decreases k - j,
    {
        if same(spec.inputs[j].name.as_str(), input.name.as_str()) {
            seen = true;
        }
        j = j + 1;
    }
    if seen {
        let mut d = owned("input `");
        append(&mut d, input.name.as_str());
        append(&mut d, "` is declared twice");
        push_finding(findings, id, verb, Check::ArgSpecs, d);
    }
    let ghost after_twice = fviews(findings@);
    match &input.class {
        None => {
            let mut d = owned("input `");
            append(&mut d, input.name.as_str());
            append(
                &mut d,
                "` has no class: declare an rdfs:Class IRI for an entity or an XSD datatype IRI for a scalar (`.class(\"http://www.w3.org/2001/XMLSchema#string\")`)",
            );
            push_finding(findings, id, verb, Check::ArgSpecs, d);
        },
        Some(class) => {
            if !has_char(class.as_str(), ':') {
                let mut d = owned("class `");
                append(&mut d, class.as_str());
                append(&mut d, "` of input `");
                append(&mut d, input.name.as_str());
                append(&mut d, "` is not an IRI (no scheme)");
                push_finding(findings, id, verb, Check::ArgSpecs, d);
            }
        },
    }
    let ghost after_class = fviews(findings@);
    if let Some(default) = &input.default {
        if input.one_of.len() > 0 && !is_listed(&input.one_of, default.as_str()) {
            let mut d = owned("input `");
            append(&mut d, input.name.as_str());
            append(&mut d, "` defaults to `");
            append(&mut d, default.as_str());
            append(&mut d, "`, which is not one of its declared values (");
            let values = join(&input.one_of, ", ");
            append(&mut d, values.as_str());
            append(&mut d, ")");
            push_finding(findings, id, verb, Check::ArgSpecs, d);
        }
        if input.required {
            let mut d = owned("input `");
            append(&mut d, input.name.as_str());
            append(&mut d, "` has a default but is marked required: a default implies optional");
            push_finding(findings, id, verb, Check::ArgSpecs, d);
        }
    }
    proof {
        assert(views(input.one_of@).contains(
            match input.default {
                Some(d) => d@,
                None => Seq::empty(),
            },
        ) == exists|i: int| 0 <= i < input.one_of@.len() && #[trigger] input.one_of@[i]@ == match input.default {
            Some(d) => d@,
            None => Seq::empty(),
        }) by {
            if exists|i: int| 0 <= i < input.one_of@.len() && #[trigger] input.one_of@[i]@ == match input.default {
                Some(d) => d@,
                None => Seq::empty(),
            } {
                let i = choose|i: int| 0 <= i < input.one_of@.len() && #[trigger] input.one_of@[i]@ == match input.default {
                    Some(d) => d@,
                    None => Seq::empty(),
                };
                assert(views(input.one_of@)[i] == input.one_of@[i]@);
            }
        }
        assert(fviews(findings@) =~= start + input_findings(id@, *spec, k as int));
    }
}

/// Records what `ARGSPECS` finds in a description.
pub fn argspecs(d: &Description, findings: &mut Vec<Finding>)
    ensures
        fviews(final(findings)@) == fviews(old(findings)@) + argspecs_findings(*d),
{
    let ghost start = fviews(findings@);
    let id = d.id.as_str();
    if d.action_specs.len() == 0 {
        push_finding(
            findings,
            id,
            None,
            Check::ArgSpecs,
            owned(
                "declares no action: no verb other than Meta, so nothing is selectable and no `requires` can be enforced (`.verb(Verb::Source)` or `.action(…)`)",
            ),
        );
    }
    let ghost head = fviews(findings@);
    assert(head =~= start + (if d.action_specs@.len() == 0 {
        seq![(d.id@, None, Check::ArgSpecs, no_action_detail())]
    } else {
        Seq::empty()
    }));
    let mut i: usize = 0;
    while i < d.action_specs.len()
        invariant
            i <= d.action_specs@.len(),
            id@ == d.id@,
            fviews(findings@) == head + actions_findings(d.id@, d.action_specs@, i as int),
        decreases d.action_specs@.len() - i,
    {
        let spec = &d.action_specs[i];
        let ghost before = fviews(findings@);
        let mut k: usize = 0;
        while k < spec.inputs.len()
            invariant
                k <= spec.inputs@.len(),
                id@ == d.id@,
                fviews(findings@) == before + inputs_findings(d.id@, *spec, k as int),
            decreases spec.inputs@.len() - k,
        {
            check_input(findings, id, spec, k);
            k = k + 1;
        }
        i = i + 1;
    }
}

// ----- REQUIRES-VERB --------------------------------------------------------------

/// The detail for a `requires` with no verb.
pub open spec fn inert_requires_detail(scopes: Seq<Seq<char>>) -> Seq<char> {
    "declares requires "@ + quoted(scopes)
        + " but no verb: `action_specs()` iterates verbs, so this scope is silently inert — the kernel enforces nothing (add `.verb(…)`)"@
}

/// What `REQUIRES-VERB` finds: a `requires` with no verb other than `Meta`.
pub open spec fn requires_verb_findings(d: Description) -> Seq<FindingView> {
    if d.requires@.len() > 0 && !(exists|i: int| 0 <= i < d.verbs@.len() && #[trigger] d.verbs@[i] != Verb::Meta) {
        seq![(d.id@, None, Check::RequiresVerb, inert_requires_detail(views(d.requires@)))]
    } else {
        Seq::empty()
    }
}

/// Records what `REQUIRES-VERB` finds.
pub fn requires_verb(d: &Description, findings: &mut Vec<Finding>)
    ensures
        fviews(final(findings)@) == fviews(old(findings)@) + requires_verb_findings(*d),
{
    let mut has_verb = false;
    let mut i: usize = 0;
    while i < d.verbs.len()
        invariant
            i <= d.verbs@.len(),
            has_verb == exists|j: int| 0 <= j < i && #[trigger] d.verbs@[j] != Verb::Meta,
        decreases d.verbs@.len() - i,
    {
        if d.verbs[i] != Verb::Meta {
            has_verb = true;
        }
        i = i + 1;
    }
    let ghost start = fviews(findings@);
    if d.requires.len() > 0 && !has_verb {
        let mut detail = owned("declares requires ");
        let list = quote_all(&d.requires);
        append(&mut detail, list.as_str());
        append(
            &mut detail,
            " but no verb: `action_specs()` iterates verbs, so this scope is silently inert — the kernel enforces nothing (add `.verb(…)`)",
        );
        push_finding(findings, d.id.as_str(), None, Check::RequiresVerb, detail);
    }
    assert(fviews(findings@) =~= start + requires_verb_findings(*d));
}

// ----- NAMES ------------------------------------------------------------------------

/// Whether `c` may appear in a kebab-case id.
pub open spec fn kebab_char(c: char) -> bool {
    ('a' <= c <= 'z') || ('0' <= c <= '9') || c == '-'
}

/// A kebab-case noun: non-empty, lower-case ASCII letters, digits and single
/// inner hyphens.
pub open spec fn kebab(id: Seq<char>) -> bool {
    &&& id.len() > 0
    &&& id[0] != '-'
    &&& id.last() != '-'
    &&& forall|i: int| 0 <= i < id.len() ==> kebab_char(#[trigger] id[i])
    &&& forall|i: int| 0 <= i < id.len() - 1 ==> !(#[trigger] id[i] == '-' && id[i + 1] == '-')
}

/// Whether `id` is a kebab-case noun (`tag-suggest`, `kernel-catalog`).
pub fn is_kebab(id: &str) -> (r: bool)
    ensures
        r == kebab(id@),
{
    let n = id.unicode_len();
    if n == 0 {
        return false;
    }
    if id.get_char(0) == '-' || id.get_char(n - 1) == '-' {
        return false;
    }
    let mut i: usize = 0;
    while i < n
        invariant
            n == id@.len(),
            i <= n,
            forall|j: int| 0 <= j < i ==> kebab_char(#[trigger] id@[j]),
            forall|j: int| 0 <= j < i && j < n - 1 ==> !(#[trigger] id@[j] == '-' && id@[j + 1] == '-'),
        decreases n - i,
    {
        let c = id.get_char(i);
        if !(('a' <= c && c <= 'z') || ('0' <= c && c <= '9') || c == '-') {
            return false;
        }
        if c == '-' && i + 1 < n && id.get_char(i + 1) == '-' {
            return false;
        }
        i = i + 1;
    }
    true
}

/// The detail for an id that is not kebab-case.
pub open spec fn not_kebab_detail(id: Seq<char>) -> Seq<char> {
    "id `"@ + id
        + "` is not a kebab-case noun (`tag-suggest`, `kernel-catalog`): the convention ikigai-core's crate docs state, and the MCP projection derives an agent's tool name from it"@
}

/// What `NAMES` finds.
pub open spec fn names_findings(d: Description) -> Seq<FindingView> {
    if !kebab(d.id@) {
        seq![(d.id@, None, Check::Names, not_kebab_detail(d.id@))]
    } else {
        Seq::empty()
    }
}

/// Records what `NAMES` finds.
pub fn names(d: &Description, findings: &mut Vec<Finding>)
    ensures
        fviews(final(findings)@) == fviews(old(findings)@) + names_findings(*d),
{
    let ghost start = fviews(findings@);
    if !is_kebab(d.id.as_str()) {
        let mut detail = owned("id `");
        append(&mut detail, d.id.as_str());
        append(
            &mut detail,
            "` is not a kebab-case noun (`tag-suggest`, `kernel-catalog`): the convention ikigai-core's crate docs state, and the MCP projection derives an agent's tool name from it",
        );
        push_finding(findings, d.id.as_str(), None, Check::Names, detail);
    }
    assert(fviews(findings@) =~= start + names_findings(*d));
}

// ----- PIPELINE (static half) --------------------------------------------------------

/// The names of an action's by-value inputs, in order.
pub open spec fn by_value_names(inputs: Seq<ArgSpec>) -> Seq<Seq<char>>
    decreases inputs.len(),
{
    if inputs.len() == 0 {
        Seq::empty()
    } else if inputs.last().source == InputSource::Argument {
        by_value_names(inputs.drop_last()).push(inputs.last().name@)
    } else {
        by_value_names(inputs.drop_last())
    }
}

/// Whether an action has a required by-value input.
pub open spec fn has_required_by_value(inputs: Seq<ArgSpec>) -> bool {
    exists|i: int| 0 <= i < inputs.len() && #[trigger] inputs[i].source == InputSource::Argument && inputs[i].required
}

/// Whether an action has a by-value input named `content`.
pub open spec fn has_content(inputs: Seq<ArgSpec>) -> bool {
    exists|i: int| 0 <= i < inputs.len() && #[trigger] inputs[i].source == InputSource::Argument && inputs[i].name@ == "content"@
}

/// The detail for a mutating action whose body has nowhere to arrive.
pub open spec fn no_content_detail(by_value: Seq<Seq<char>>) -> Seq<char> {
    "declares by-value inputs ("@ + quoted(by_value)
        + ") but none named `content`: a pipeline's upstream value and a top-level `sink`'s body both arrive as `content`, so this action cannot receive either"@
}

/// What the static half of `PIPELINE` finds in the first `n` actions.
pub open spec fn pipeline_static_findings(id: Seq<char>, specs: Seq<ActionSpec>, n: int) -> Seq<FindingView>
    decreases n,
{
    if n <= 0 {
        Seq::empty()
    } else {
        let spec = specs[n - 1];
        pipeline_static_findings(id, specs, n - 1) + if mutating_verb(spec.verb)
            && has_required_by_value(spec.inputs@) && !has_content(spec.inputs@) {
            seq![(id, Some(spec.verb), Check::Pipeline, no_content_detail(by_value_names(spec.inputs@)))]
        } else {
            Seq::empty()
        }
    }
}

/// Records what the static half of `PIPELINE` finds: a mutating action with
/// required by-value inputs and none named `content`.
pub fn pipeline_static(d: &Description, findings: &mut Vec<Finding>)
    ensures
        fviews(final(findings)@) == fviews(old(findings)@) + pipeline_static_findings(
            d.id@,
            d.action_specs@,
            d.action_specs@.len() as int,
        ),
{
    let ghost start = fviews(findings@);
    let mut i: usize = 0;
    while i < d.action_specs.len()
        invariant
            i <= d.action_specs@.len(),
            fviews(findings@) == start + pipeline_static_findings(d.id@, d.action_specs@, i as int),
        decreases d.action_specs@.len() - i,
    {
        let spec = &d.action_specs[i];
        let ghost before = fviews(findings@);
        if spec.verb.is_mutating() {
            let mut by_value: Vec<String> = Vec::new();
            let mut required = false;
            let mut content = false;
            let mut k: usize = 0;
            while k < spec.inputs.len()
                invariant
                    k <= spec.inputs@.len(),
                    views(by_value@) == by_value_names(spec.inputs@.take(k as int)),
                    required == has_required_by_value(spec.inputs@.take(k as int)),
                    content == has_content(spec.inputs@.take(k as int)),
                decreases spec.inputs@.len() - k,
            {
                let input = &spec.inputs[k];
                let ghost t = spec.inputs@.take(k + 1);
                proof {
                    assert(t.drop_last() =~= spec.inputs@.take(k as int));
                    assert(t.last() == *input);
                }
                if input.source == InputSource::Argument {
                    let ghost bv = views(by_value@);
                    by_value.push(input.name.clone());
                    assert(views(by_value@) =~= bv.push(input.name@));
                    if input.required {
                        required = true;
                    }
                    if same(input.name.as_str(), "content") {
                        content = true;
                    }
                }
                proof {
                    if has_required_by_value(t) && !has_required_by_value(spec.inputs@.take(k as int)) {
                        let j = choose|j: int| 0 <= j < t.len() && #[trigger] t[j].source == InputSource::Argument && t[j].required;
                        assert(j == k);
                    }
                    if has_content(t) && !has_content(spec.inputs@.take(k as int)) {
                        let j = choose|j: int| 0 <= j < t.len() && #[trigger] t[j].source == InputSource::Argument && t[j].name@ == "content"@;
                        assert(j == k);
                    }
                    if has_required_by_value(spec.inputs@.take(k as int)) {
                        let j = choose|j: int| 0 <= j < k && #[trigger] spec.inputs@.take(k as int)[j].source == InputSource::Argument && spec.inputs@.take(k as int)[j].required;
                        assert(t[j] == spec.inputs@.take(k as int)[j]);
                    }
                    if has_content(spec.inputs@.take(k as int)) {
                        let j = choose|j: int| 0 <= j < k && #[trigger] spec.inputs@.take(k as int)[j].source == InputSource::Argument && spec.inputs@.take(k as int)[j].name@ == "content"@;
                        assert(t[j] == spec.inputs@.take(k as int)[j]);
                    }
                }
                k = k + 1;
            }
            assert(spec.inputs@.take(spec.inputs@.len() as int) =~= spec.inputs@);
            if required && !content {
                let mut detail = owned("declares by-value inputs (");
                let list = quote_all(&by_value);
                append(&mut detail, list.as_str());
                append(
                    &mut detail,
                    ") but none named `content`: a pipeline's upstream value and a top-level `sink`'s body both arrive as `content`, so this action cannot receive either",
                );
                push_finding(findings, d.id.as_str(), Some(spec.verb), Check::Pipeline, detail);
            }
        }
        assert(fviews(findings@) =~= start + pipeline_static_findings(d.id@, d.action_specs@, i + 1));
        i = i + 1;
    }
}

} // verus!
