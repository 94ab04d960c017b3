//! Forming the IRI an entry is resolved at: the pattern itself when it is an
//! IRI, else its URI template expanded with fixture bindings or values derived
//! from the declared binding inputs — and the `ARGSPECS` rule that every
//! template variable is a declared binding input.
use crate::checks::Check;
use crate::fixture::Fixture;
use crate::model::{ActionSpec, ArgSpec, Description, Entry, InputSource};
use crate::pairs::first_value;
use crate::report::{fviews, push_finding, Finding, FindingView};
use crate::suite::{runs, sample, sample_value, Suite};
use crate::text::{append, owned, same, views};
use ikigai_core::{Bindings, Iri, UriTemplate};
use vstd::prelude::*;

verus! {

/// What `Iri::parse` says of a string: `None` when it is an absolute IRI, else
/// its error's message.
pub uninterp spec fn iri_error(s: Seq<char>) -> Option<Seq<char>>;

/// What `UriTemplate::parse` gives for a pattern: its variables in order of
/// appearance, or its error's message.
pub uninterp spec fn template_parsed(pattern: Seq<char>) -> Result<Seq<Seq<char>>, Seq<char>>;

/// What `UriTemplate::expand` gives for a template and bindings.
pub uninterp spec fn template_expansion(
    pattern: Seq<char>,
    bindings: Seq<(Seq<char>, Seq<char>)>,
) -> Option<Seq<char>>;

/// `Iri::parse`: `None` when `s` is an absolute IRI, else the error's message.
#[verifier::external_body]
pub fn iri_check(s: &str) -> (r: Option<String>)
    ensures
        match r {
            Some(e) => iri_error(s@) == Some(e@),
            None => iri_error(s@) is None,
        },
{
    Iri::parse(s).err().map(|e| e.to_string())
}

/// `UriTemplate::parse` followed by `variables`: the variable names in order of
/// appearance, or the error's message.
#[verifier::external_body]
fn template_variables(pattern: &str) -> (r: Result<Vec<String>, String>)
    ensures
        match r {
            Ok(vars) => template_parsed(pattern@) == Ok::<Seq<Seq<char>>, Seq<char>>(views(vars@)),
            Err(e) => template_parsed(pattern@) == Err::<Seq<Seq<char>>, Seq<char>>(e@),
        },
{
    UriTemplate::parse(pattern).map(|t| t.variables().map(str::to_string).collect()).map_err(
        |e| e.to_string(),
    )
}

/// The pairs as plain values.
pub open spec fn pair_views(pairs: Seq<(String, String)>) -> Seq<(Seq<char>, Seq<char>)> {
    pairs.map_values(|p: (String, String)| (p.0@, p.1@))
}

/// Whether every variable of `vars` has a value among `values`.
pub open spec fn all_bound(vars: Seq<Seq<char>>, values: Seq<(Seq<char>, Seq<char>)>) -> bool {
    forall|i: int|
        0 <= i < vars.len() ==> exists|j: int| 0 <= j < values.len() && #[trigger] values[j].0 == #[trigger] vars[i]
}

/// `UriTemplate::expand` with the given variable values (the template parses):
/// `None` exactly when a variable of the template has no value.
#[verifier::external_body]
fn template_expand(pattern: &str, values: &Vec<(String, String)>) -> (r: Option<String>)
    requires
        template_parsed(pattern@) is Ok,
    ensures
        match r {
            Some(x) => template_expansion(pattern@, pair_views(values@)) == Some(x@),
            None => template_expansion(pattern@, pair_views(values@)) is None,
        },
        r is Some == all_bound(template_parsed(pattern@)->Ok_0, pair_views(values@)),
{
    let template = UriTemplate::parse(pattern).unwrap();
    let mut bindings = Bindings::new();
    for (name, value) in values {
        bindings.insert(name.as_str(), value.as_str());
    }
    template.expand(&bindings)
}

/// The variables of a template pattern, or `None` for an exact IRI, a malformed
/// pattern, or a template without variables.
pub open spec fn pattern_vars(pattern: Seq<char>) -> Option<Seq<Seq<char>>> {
    if iri_error(pattern) is None {
        None
    } else {
        match template_parsed(pattern) {
            Ok(vars) => if vars.len() == 0 {
                None
            } else {
                Some(vars)
            },
            Err(_) => None,
        }
    }
}

/// The variables of a template pattern, or `None` for an exact IRI, a malformed
/// pattern, or a template without variables.
pub fn template_vars(pattern: &str) -> (r: Option<Vec<String>>)
    ensures
        match r {
            Some(v) => pattern_vars(pattern@) == Some(views(v@)),
            None => pattern_vars(pattern@) is None,
        },
{
    if iri_check(pattern).is_none() {
        return None;
    }
    match template_variables(pattern) {
        Ok(vars) => {
            if vars.len() == 0 {
                None
            } else {
                Some(vars)
            }
        },
        Err(_) => None,
    }
}

// ----- the value of a template variable ----------------------------------------

/// The inputs of a description's flat form and of every explicit action, in order.
pub open spec fn all_inputs(d: Description) -> Seq<ArgSpec> {
    d.inputs@ + action_inputs(d.actions@)
}

/// The inputs of the actions, one action after another.
pub open spec fn action_inputs(actions: Seq<ActionSpec>) -> Seq<ArgSpec>
    decreases actions.len(),
{
    if actions.len() == 0 {
        Seq::empty()
    } else {
        action_inputs(actions.drop_last()) + actions.last().inputs@
    }
}

/// The first binding input of `inputs` named `var`.
pub open spec fn first_binding(inputs: Seq<ArgSpec>, var: Seq<char>) -> Option<ArgSpec>
    decreases inputs.len(),
{
    if inputs.len() == 0 {
        None
    } else if inputs[0].name@ == var && inputs[0].source == InputSource::Binding {
        Some(inputs[0])
    } else {
        first_binding(inputs.drop_first(), var)
    }
}

/// The value the first fixture for `id` that binds `var` gives it.
pub open spec fn fixture_binding(fs: Seq<Fixture>, id: Seq<char>, var: Seq<char>) -> Option<Seq<char>>
    decreases fs.len(),
{
    if fs.len() == 0 {
        None
    } else if fs[0].id@ == id && first_value(fs[0].bindings@, var) is Some {
        first_value(fs[0].bindings@, var)
    } else {
        fixture_binding(fs.drop_first(), id, var)
    }
}

/// The value a template variable is given: a fixture's binding, else the sample of
/// the declared binding input, else the placeholder.
pub open spec fn variable_value(s: Suite, d: Description, var: Seq<char>) -> Seq<char> {
    match fixture_binding(s.fixtures@, d.id@, var) {
        Some(v) => v,
        None => match first_binding(all_inputs(d), var) {
            Some(a) => sample(a),
            None => "x"@,
        },
    }
}

/// The first binding input of `inputs` named `var`, from index `from` on.
fn find_binding<'a>(inputs: &'a Vec<ArgSpec>, var: &str) -> (r: Option<&'a ArgSpec>)
    ensures
        r == match first_binding(inputs@, var@) {
            Some(a) => Some(&a),
            None => None::<&ArgSpec>,
        },
{
    let mut i: usize = 0;
    assert(inputs@.skip(0) =~= inputs@);
    while i < inputs.len()
        invariant
            i <= inputs@.len(),
            first_binding(inputs@, var@) == first_binding(inputs@.skip(i as int), var@),
        decreases inputs@.len() - i,
    {
        proof {
            assert(inputs@.skip(i as int)[0] == inputs@[i as int]);
            assert(inputs@.skip(i as int).drop_first() =~= inputs@.skip(i + 1));
        }
        if inputs[i].source == InputSource::Binding && same(inputs[i].name.as_str(), var) {
            return Some(&inputs[i]);
        }
        i = i + 1;
    }
    None
}

proof fn lemma_first_binding_append(a: Seq<ArgSpec>, b: Seq<ArgSpec>, var: Seq<char>)
    ensures
        first_binding(a + b, var) == match first_binding(a, var) {
            Some(x) => Some(x),
            None => first_binding(b, var),
        },
    decreases a.len(),
{
    if a.len() > 0 {
        assert((a + b).drop_first() =~= a.drop_first() + b);
        assert((a + b)[0] == a[0]);
        lemma_first_binding_append(a.drop_first(), b, var);
    } else {
        assert(a + b =~= b);
    }
}

/// The value a template variable is given.
fn variable_value_of(suite: &Suite, d: &Description, var: &str) -> (r: String)
    ensures
        r@ == variable_value(*suite, *d, var@),
{
    let mut i: usize = 0;
    assert(suite.fixtures@.skip(0) =~= suite.fixtures@);
    while i < suite.fixtures.len()
        invariant
            i <= suite.fixtures@.len(),
            fixture_binding(suite.fixtures@, d.id@, var@) == fixture_binding(
                suite.fixtures@.skip(i as int),
                d.id@,
                var@,
            ),
        decreases suite.fixtures@.len() - i,
    {
        let f = &suite.fixtures[i];
        proof {
            assert(suite.fixtures@.skip(i as int)[0] == *f);
            assert(suite.fixtures@.skip(i as int).drop_first() =~= suite.fixtures@.skip(i + 1));
        }
        if same(f.id.as_str(), d.id.as_str()) {
            if let Some(v) = f.bound(var) {
                return v.clone();
            }
        }
        i = i + 1;
    }
    let mut found = find_binding(&d.inputs, var);
    let mut k: usize = 0;
    let ghost acc = d.inputs@;
    proof {
        assert(action_inputs(d.actions@.take(0)) =~= Seq::<ArgSpec>::empty());
        assert(d.inputs@ + action_inputs(d.actions@.take(0)) =~= d.inputs@);
    }
    while k < d.actions.len() && found.is_none()
        invariant
            k <= d.actions@.len(),
            found == match first_binding(d.inputs@ + action_inputs(d.actions@.take(k as int)), var@) {
                Some(a) => Some(&a),
                None => None::<&ArgSpec>,
            },
        decreases d.actions@.len() - k,
    {
        let next = find_binding(&d.actions[k].inputs, var);
        proof {
            let t = d.actions@.take(k + 1);
            assert(t.drop_last() =~= d.actions@.take(k as int));
            assert(t.last() == d.actions@[k as int]);
            let before = d.inputs@ + action_inputs(d.actions@.take(k as int));
            assert(d.inputs@ + action_inputs(t) =~= before + d.actions@[k as int].inputs@);
            lemma_first_binding_append(before, d.actions@[k as int].inputs@, var@);
        }
        found = next;
        k = k + 1;
    }
    proof {
        if k < d.actions@.len() {
            let rest = d.actions@.skip(k as int);
            let before = d.inputs@ + action_inputs(d.actions@.take(k as int));
            lemma_action_inputs_split(d.actions@, k as int);
            lemma_first_binding_append(before, action_inputs(rest), var@);
            assert(all_inputs(*d) =~= before + action_inputs(rest));
        } else {
            assert(d.actions@.take(k as int) =~= d.actions@);
        }
    }
    match found {
        Some(a) => sample_value(a),
        None => owned("x"),
    }
}

proof fn lemma_action_inputs_split(actions: Seq<ActionSpec>, k: int)
    requires
        0 <= k <= actions.len(),
    ensures
        action_inputs(actions) == action_inputs(actions.take(k)) + action_inputs(actions.skip(k)),
    decreases actions.len(),
{
    if actions.len() == 0 {
        assert(actions.take(k) =~= actions);
        assert(actions.skip(k) =~= actions);
        assert(action_inputs(actions) + Seq::<ArgSpec>::empty() =~= action_inputs(actions));
    } else if k == actions.len() {
        assert(actions.take(k) =~= actions);
        assert(actions.skip(k) =~= Seq::<ActionSpec>::empty());
        assert(action_inputs(actions) + Seq::<ArgSpec>::empty() =~= action_inputs(actions));
    } else {
        lemma_action_inputs_split(actions.drop_last(), k);
        assert(actions.drop_last().take(k) =~= actions.take(k));
        assert(actions.skip(k).drop_last() =~= actions.drop_last().skip(k));
        assert(actions.skip(k).last() == actions.last());
    }
}

// ----- the target IRI ------------------------------------------------------------

/// The values given the variables `vars`, in order.
pub open spec fn variable_values(s: Suite, d: Description, vars: Seq<Seq<char>>) -> Seq<(Seq<char>, Seq<char>)> {
    vars.map_values(|v: Seq<char>| (v, variable_value(s, d, v)))
}

/// The message for a pattern that is neither an IRI nor a template.
pub open spec fn bad_pattern_detail(pattern: Seq<char>, e: Seq<char>) -> Seq<char> {
    "bound at `"@ + pattern + "`, which is neither an IRI nor a URI template: "@ + e
}

/// The message for a template that could not be expanded.
pub open spec fn unexpanded_detail(pattern: Seq<char>) -> Seq<char> {
    "template `"@ + pattern + "` could not be expanded"@
}

/// The message for a template that expands to something that is not an IRI.
pub open spec fn not_iri_target_detail(pattern: Seq<char>, expanded: Seq<char>, e: Seq<char>) -> Seq<char> {
    "template `"@ + pattern + "` expands to `"@ + expanded + "`, which is not an IRI ("@ + e
        + "); supply a Fixture binding"@
}

/// The concrete IRI to resolve for an entry, or why there is none.
pub open spec fn target(s: Suite, pattern: Seq<char>, d: Description) -> Result<Seq<char>, Seq<char>> {
    if iri_error(pattern) is None {
        Ok(pattern)
    } else {
        match template_parsed(pattern) {
            Err(e) => Err(bad_pattern_detail(pattern, e)),
            Ok(vars) => match template_expansion(pattern, variable_values(s, d, vars)) {
                None => Err(unexpanded_detail(pattern)),
                Some(x) => match iri_error(x) {
                    None => Ok(x),
                    Some(e) => Err(not_iri_target_detail(pattern, x, e)),
                },
            },
        }
    }
}

/// The concrete IRI to resolve for an entry: the pattern itself when it is an
/// IRI, else the template expanded with fixture bindings or values derived from
/// the declared binding inputs; or why it cannot be formed.
pub fn target_for(suite: &Suite, entry: &Entry, d: &Description) -> (r: Result<String, String>)
    ensures
        match r {
            Ok(x) => target(*suite, entry.pattern@, *d) == Ok::<Seq<char>, Seq<char>>(x@),
            Err(e) => target(*suite, entry.pattern@, *d) == Err::<Seq<char>, Seq<char>>(e@),
        },
{
    let pattern = entry.pattern.as_str();
    if iri_check(pattern).is_none() {
        return Ok(entry.pattern.clone());
    }
    let vars = match template_variables(pattern) {
        Ok(v) => v,
        Err(e) => {
            let mut m = owned("bound at `");
            append(&mut m, pattern);
            append(&mut m, "`, which is neither an IRI nor a URI template: ");
            append(&mut m, e.as_str());
            return Err(m);
        },
    };
    let mut values: Vec<(String, String)> = Vec::new();
    let mut i: usize = 0;
    while i < vars.len()
        invariant
            i <= vars@.len(),
            pair_views(values@) == variable_values(*suite, *d, views(vars@).take(i as int)),
        decreases vars@.len() - i,
    {
        let v = variable_value_of(suite, d, vars[i].as_str());
        let ghost before = pair_views(values@);
        values.push((vars[i].clone(), v));
        proof {
            assert(pair_views(values@) =~= before.push((vars@[i as int]@, v@)));
            assert(variable_values(*suite, *d, views(vars@).take(i + 1)) =~= variable_values(
                *suite,
                *d,
                views(vars@).take(i as int),
            ).push((vars@[i as int]@, v@)));
        }
        i = i + 1;
    }
    assert(views(vars@).take(vars@.len() as int) =~= views(vars@));
    let expanded = match template_expand(pattern, &values) {
        Some(x) => x,
        None => {
            let mut m = owned("template `");
            append(&mut m, pattern);
            append(&mut m, "` could not be expanded");
            return Err(m);
        },
    };
    match iri_check(expanded.as_str()) {
        None => Ok(expanded),
        Some(e) => {
            let mut m = owned("template `");
            append(&mut m, pattern);
            append(&mut m, "` expands to `");
            append(&mut m, expanded.as_str());
            append(&mut m, "`, which is not an IRI (");
            append(&mut m, e.as_str());
            append(&mut m, "); supply a Fixture binding");
            Err(m)
        },
    }
}

// ----- ARGSPECS: template variables are binding inputs -----------------------------

/// The detail for a template variable no action declares as a binding input.
pub open spec fn unbound_var_detail(var: Seq<char>, pattern: Seq<char>) -> Seq<char> {
    "template variable `"@ + var + "` of `"@ + pattern + "` is not a declared binding input (`ArgSpec::new(\""@
        + var
        + "\").binding()`): the manifold cannot form the IRI from the contract, so the action is undrivable"@
}

/// Whether an action declares `var` as a binding input.
pub open spec fn declares_binding(spec: ActionSpec, var: Seq<char>) -> bool {
    exists|i: int|
        0 <= i < spec.inputs@.len() && #[trigger] spec.inputs@[i].name@ == var
            && spec.inputs@[i].source == InputSource::Binding
}

/// What the template rule finds in one action for the first `n` variables.
pub open spec fn unbound_vars(id: Seq<char>, pattern: Seq<char>, spec: ActionSpec, vars: Seq<Seq<char>>, n: int) -> Seq<
    FindingView,
>
    decreases n,
{
    if n <= 0 {
        Seq::empty()
    } else {
        unbound_vars(id, pattern, spec, vars, n - 1) + if declares_binding(spec, vars[n - 1]) {
            Seq::empty()
        } else {
            seq![(id, Some(spec.verb), Check::ArgSpecs, unbound_var_detail(vars[n - 1], pattern))]
        }
    }
}

/// What the template rule finds in the first `n` actions.
pub open spec fn template_findings_upto(
    id: Seq<char>,
    pattern: Seq<char>,
    specs: Seq<ActionSpec>,
    vars: Seq<Seq<char>>,
    n: int,
) -> Seq<FindingView>
    decreases n,
{
    if n <= 0 {
        Seq::empty()
    } else {
        template_findings_upto(id, pattern, specs, vars, n - 1) + unbound_vars(
            id,
            pattern,
            specs[n - 1],
            vars,
            vars.len() as int,
        )
    }
}

/// What the template rule finds for an entry: every variable of its pattern that
/// an action does not declare as a binding input, action by action.
pub open spec fn template_findings(s: Suite, pattern: Seq<char>, d: Description) -> Seq<FindingView> {
    if !runs(s, d.id@, Check::ArgSpecs) {
        Seq::empty()
    } else {
        match pattern_vars(pattern) {
            None => Seq::empty(),
            Some(vars) => template_findings_upto(
                d.id@,
                pattern,
                d.action_specs@,
                vars,
                d.action_specs@.len() as int,
            ),
        }
    }
}

/// Whether an action declares `var` as a binding input.
fn binds(spec: &ActionSpec, var: &str) -> (r: bool)
    ensures
        r == declares_binding(*spec, var@),
{
    let mut i: usize = 0;
    while i < spec.inputs.len()
        invariant
            i <= spec.inputs@.len(),
            forall|j: int|
                0 <= j < i ==> !(#[trigger] spec.inputs@[j].name@ == var@
                    && spec.inputs@[j].source == InputSource::Binding),
        decreases spec.inputs@.len() - i,
    {
        if spec.inputs[i].source == InputSource::Binding && same(spec.inputs[i].name.as_str(), var) {
            return true;
        }
        i = i + 1;
    }
    false
}

/// Records what the template rule finds for an entry.
pub fn template_checks(suite: &Suite, entry: &Entry, d: &Description, findings: &mut Vec<Finding>)
    ensures
        fviews(final(findings)@) == fviews(old(findings)@) + template_findings(
            *suite,
            entry.pattern@,
            *d,
        ),
{
    let ghost start = fviews(findings@);
    if !suite.runs(d.id.as_str(), Check::ArgSpecs) {
        assert(fviews(findings@) =~= start + Seq::<FindingView>::empty());
        return;
    }
    let vars = match template_vars(entry.pattern.as_str()) {
        None => {
            assert(fviews(findings@) =~= start + Seq::<FindingView>::empty());
            return;
        },
        Some(v) => v,
    };
    let ghost vs = views(vars@);
    let mut i: usize = 0;
    while i < d.action_specs.len()
        invariant
            i <= d.action_specs@.len(),
            vs == views(vars@),
            fviews(findings@) == start + template_findings_upto(
                d.id@,
                entry.pattern@,
                d.action_specs@,
                vs,
                i as int,
            ),
        decreases d.action_specs@.len() - i,
    {
        let spec = &d.action_specs[i];
        let ghost before = fviews(findings@);
        let mut k: usize = 0;
        while k < vars.len()
            invariant
                k <= vars@.len(),
                vs == views(vars@),
                fviews(findings@) == before + unbound_vars(d.id@, entry.pattern@, *spec, vs, k as int),
            decreases vars@.len() - k,
        {
            let var = vars[k].as_str();
            if !binds(spec, var) {
                let mut m = owned("template variable `");
                append(&mut m, var);
                append(&mut m, "` of `");
                append(&mut m, entry.pattern.as_str());
                append(&mut m, "` is not a declared binding input (`ArgSpec::new(\"");
                append(&mut m, var);
                append(
                    &mut m,
                    "\").binding()`): the manifold cannot form the IRI from the contract, so the action is undrivable",
                );
                push_finding(findings, d.id.as_str(), Some(spec.verb), Check::ArgSpecs, m);
            }
            assert(fviews(findings@) =~= before + unbound_vars(
                d.id@,
                entry.pattern@,
                *spec,
                vs,
                k + 1,
            ));
            k = k + 1;
        }
        assert(fviews(findings@) =~= start + template_findings_upto(
            d.id@,
            entry.pattern@,
            d.action_specs@,
            vs,
            i + 1,
        ));
        i = i + 1;
    }
}

} // verus!
