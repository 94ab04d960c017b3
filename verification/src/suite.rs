//! A configured run — which checks, which fixtures, which actions are opted out
//! and why, which namespaces are the module's own, which endpoints are pure,
//! cacheable or live — and the checks that read a description alone.
use crate::checks::{Check, Checks};
use crate::fixture::Fixture;
use crate::model::{cacheable_verb, mutating_verb, ActionSpec, ArgSpec, Description, InputSource, Verb};
use crate::pairs::{last_value, lookup, put, sorted_pairs};
use crate::report::{
    fview, fviews, push_finding, waived, Finding, FindingView, OptedOut, OptedOutCheck,
};
use crate::text::{
    append, cat, has_char, is_listed, join, joined, owned, same, starts_with, views,
};
use vstd::prelude::*;

verus! {

/// The namespace of the kernel's own operations.
pub const KERNEL_NS: &'static str = "urn:kernel:";

/// The XSD namespace, for deriving a plausible scalar from a declared `class`.
pub const XSD: &'static str = "http://www.w3.org/2001/XMLSchema#";

/// The value substituted for an untyped input or template variable.
pub const PLACEHOLDER: &'static str = "x";

/// The IRI substituted for an entity-valued or `xsd:anyURI` input.
pub const PLACEHOLDER_IRI: &'static str = "urn:example:conformance";

/// The endpoint field of a finding about the suite itself rather than an endpoint.
pub const SUITE: &'static str = "(suite)";

/// A configured run: which checks, which fixtures, which actions are opted out of
/// being invoked and why, which namespaces are the module's own, and which
/// endpoints are pure, cacheable or live.
#[derive(Clone, Debug)]
pub struct Suite {
    /// The checks to run; the rest are reported as skipped.
    pub checks: Checks,
    /// Module-supplied inputs.
    pub fixtures: Vec<Fixture>,
    /// Actions excluded from the invoking checks.
    pub opt_outs: Vec<OptedOut>,
    /// Single checks waived for single endpoints.
    pub opt_out_checks: Vec<OptedOutCheck>,
    /// Namespaces registered as the module's own.
    pub namespaces: Vec<String>,
    /// Endpoints declared pure.
    pub pure: Vec<String>,
    /// Endpoints declared cacheable.
    pub cacheable: Vec<String>,
    /// Endpoints declared live.
    pub live: Vec<String>,
    /// Whether the kernel's own operations are walked too.
    pub kernel_ops: bool,
}

/// Whether one of `v` is `id`.
pub open spec fn listed(v: Seq<String>, id: Seq<char>) -> bool {
    exists|i: int| 0 <= i < v.len() && #[trigger] v[i]@ == id
}

/// Whether `check` runs for `id`: selected, and not waived for this id.
pub open spec fn runs(s: Suite, id: Seq<char>, check: Check) -> bool {
    s.checks@.contains(check) && !waived(s.opt_out_checks@, id, check)
}

/// Whether the action `(id, verb)` is excluded from the invoking checks.
pub open spec fn excluded(s: Suite, id: Seq<char>, verb: Verb) -> bool {
    exists|k: int|
        0 <= k < s.opt_outs@.len() && #[trigger] s.opt_outs@[k].endpoint@ == id && match s.opt_outs@[k].verb {
            Some(v) => v == verb,
            None => true,
        }
}

/// The first fixture of `fs` for `(id, verb)`.
pub open spec fn first_fixture(fs: Seq<Fixture>, id: Seq<char>, verb: Verb) -> Option<Fixture>
    decreases fs.len(),
{
    if fs.len() == 0 {
        None
    } else if fs[0].id@ == id && fs[0].verb == verb {
        Some(fs[0])
    } else {
        first_fixture(fs.drop_first(), id, verb)
    }
}

impl Suite {
    /// Every check, no fixtures, no opt-outs, kernel operations skipped.
    pub fn new() -> (r: Suite)
        ensures
            forall|c: Check| #[trigger] r.checks@.contains(c),
            r.fixtures@.len() == 0,
            r.opt_outs@.len() == 0,
            r.opt_out_checks@.len() == 0,
            r.namespaces@.len() == 0,
            r.pure@.len() == 0,
            r.cacheable@.len() == 0,
            r.live@.len() == 0,
            !r.kernel_ops,
    {
        Suite {
            checks: Checks::all(),
            fixtures: Vec::new(),
            opt_outs: Vec::new(),
            opt_out_checks: Vec::new(),
            namespaces: Vec::new(),
            pure: Vec::new(),
            cacheable: Vec::new(),
            live: Vec::new(),
            kernel_ops: false,
        }
    }

    /// Select the checks to run; the rest are reported as skipped.
    pub fn checks(self, checks: Checks) -> (r: Suite)
        ensures
            r == (Suite { checks, ..self }),
    {
        Suite { checks, ..self }
    }

    /// Supply inputs for one action.
    pub fn fixture(self, fixture: Fixture) -> (r: Suite)
        ensures
            r == (Suite { fixtures: r.fixtures, ..self }),
            r.fixtures@ == self.fixtures@.push(fixture),
    {
        let mut s = self;
        s.fixtures.push(fixture);
        s
    }

    /// Exclude one action (`Some(verb)`), or every action of an endpoint (`None`),
    /// from the checks that invoke it, with the reason printed in the report. The
    /// description-only checks still run.
    pub fn opt_out(self, id: &str, verb: Option<Verb>, reason: &str) -> (r: Suite)
        ensures
            r == (Suite { opt_outs: r.opt_outs, ..self }),
            r.opt_outs@.len() == self.opt_outs@.len() + 1,
            forall|k: int| 0 <= k < self.opt_outs@.len() ==> r.opt_outs@[k] == self.opt_outs@[k],
            r.opt_outs@.last().endpoint@ == id@,
            r.opt_outs@.last().verb == verb,
            r.opt_outs@.last().reason@ == reason@,
    {
        let mut s = self;
        s.opt_outs.push(OptedOut { endpoint: owned(id), verb, reason: owned(reason) });
        s
    }

    /// Exclude ONE check for one endpoint, with a reason — for a rule that is
    /// legitimately red on this endpoint while every other check still runs on it.
    pub fn opt_out_check(self, id: &str, check: Check, reason: &str) -> (r: Suite)
        ensures
            r == (Suite { opt_out_checks: r.opt_out_checks, ..self }),
            r.opt_out_checks@.len() == self.opt_out_checks@.len() + 1,
            forall|k: int|
                0 <= k < self.opt_out_checks@.len() ==> r.opt_out_checks@[k]
                    == self.opt_out_checks@[k],
            r.opt_out_checks@.last().endpoint@ == id@,
            r.opt_out_checks@.last().check == check,
            r.opt_out_checks@.last().reason@ == reason@,
    {
        let mut s = self;
        s.opt_out_checks.push(OptedOutCheck { endpoint: owned(id), check, reason: owned(reason) });
        s
    }

    /// Register a namespace prefix as the module's own, so terms under it are not
    /// reported by `VOCABULARY`.
    pub fn namespace(self, prefix: &str) -> (r: Suite)
        ensures
            r == (Suite { namespaces: r.namespaces, ..self }),
            views(r.namespaces@) == views(self.namespaces@).push(prefix@),
    {
        let mut s = self;
        let ghost before = views(s.namespaces@);
        s.namespaces.push(owned(prefix));
        assert(views(s.namespaces@) =~= before.push(prefix@));
        s
    }

    /// Declare an endpoint a pure function of its inputs.
    pub fn pure(self, id: &str) -> (r: Suite)
        ensures
            r == (Suite { pure: r.pure, ..self }),
            views(r.pure@) == views(self.pure@).push(id@),
    {
        let mut s = self;
        let ghost before = views(s.pure@);
        s.pure.push(owned(id));
        assert(views(s.pure@) =~= before.push(id@));
        s
    }

    /// Declare that an endpoint marks its results cacheable, and hold it to that.
    pub fn cacheable(self, id: &str) -> (r: Suite)
        ensures
            r == (Suite { cacheable: r.cacheable, ..self }),
            views(r.cacheable@) == views(self.cacheable@).push(id@),
    {
        let mut s = self;
        let ghost before = views(s.cacheable@);
        s.cacheable.push(owned(id));
        assert(views(s.cacheable@) =~= before.push(id@));
        s
    }

    /// Declare that an endpoint's results are live by decision — never cached —
    /// and hold it to that.
    pub fn live(self, id: &str) -> (r: Suite)
        ensures
            r == (Suite { live: r.live, ..self }),
            views(r.live@) == views(self.live@).push(id@),
    {
        let mut s = self;
        let ghost before = views(s.live@);
        s.live.push(owned(id));
        assert(views(s.live@) =~= before.push(id@));
        s
    }

    /// Walk the kernel's own `urn:kernel:*` operations too.
    pub fn include_kernel_ops(self) -> (r: Suite)
        ensures
            r == (Suite { kernel_ops: true, ..self }),
    {
        Suite { kernel_ops: true, ..self }
    }

    /// Whether `check` runs for `id`: selected suite-wide and not waived for it.
    pub fn runs(&self, id: &str, check: Check) -> (r: bool)
        ensures
            r == runs(*self, id@, check),
    {
        if !self.checks.contains(check) {
            return false;
        }
        let mut i: usize = 0;
        while i < self.opt_out_checks.len()
            invariant
                i <= self.opt_out_checks@.len(),
                forall|k: int|
                    0 <= k < i ==> !(#[trigger] self.opt_out_checks@[k].endpoint@ == id@
                        && self.opt_out_checks@[k].check == check),
            decreases self.opt_out_checks@.len() - i,
        {
            let o = &self.opt_out_checks[i];
            if o.check == check && same(o.endpoint.as_str(), id) {
                return false;
            }
            i = i + 1;
        }
        true
    }

    /// Whether the action `(id, verb)` is excluded from the invoking checks.
    pub fn opted_out(&self, id: &str, verb: Verb) -> (r: bool)
        ensures
            r == excluded(*self, id@, verb),
    {
        let mut i: usize = 0;
        while i < self.opt_outs.len()
            invariant
                i <= self.opt_outs@.len(),
                forall|k: int|
                    0 <= k < i ==> !(#[trigger] self.opt_outs@[k].endpoint@ == id@ && match self.opt_outs@[k].verb {
                        Some(v) => v == verb,
                        None => true,
                    }),
            decreases self.opt_outs@.len() - i,
        {
            let o = &self.opt_outs[i];
            let verb_matches = match o.verb {
                Some(v) => v == verb,
                None => true,
            };
            if verb_matches && same(o.endpoint.as_str(), id) {
                return true;
            }
            i = i + 1;
        }
        false
    }

    /// The first fixture for `(id, verb)`.
    pub fn fixture_for(&self, id: &str, verb: Verb) -> (r: Option<&Fixture>)
        ensures
            r == match first_fixture(self.fixtures@, id@, verb) {
                Some(f) => Some(&f),
                None => None::<&Fixture>,
            },
    {
        let mut i: usize = 0;
        assert(self.fixtures@.skip(0) =~= self.fixtures@);
        while i < self.fixtures.len()
            invariant
                i <= self.fixtures@.len(),
                first_fixture(self.fixtures@, id@, verb) == first_fixture(
                    self.fixtures@.skip(i as int),
                    id@,
                    verb,
                ),
            decreases self.fixtures@.len() - i,
        {
            let f = &self.fixtures[i];
            proof {
                assert(self.fixtures@.skip(i as int)[0] == *f);
                assert(self.fixtures@.skip(i as int).drop_first() =~= self.fixtures@.skip(i + 1));
            }
            if f.verb == verb && same(f.id.as_str(), id) {
                return Some(f);
            }
            i = i + 1;
        }
        None
    }
}

// ----- inputs -------------------------------------------------------------------

/// The value derived for an XSD datatype local name.
pub open spec fn xsd_sample(t: Seq<char>) -> Seq<char> {
    if t == "integer"@ || t == "int"@ || t == "long"@ || t == "short"@ || t == "byte"@ || t
        == "nonNegativeInteger"@ || t == "positiveInteger"@ || t == "unsignedInt"@ || t
        == "unsignedLong"@ || t == "unsignedShort"@ {
        "1"@
    } else if t == "decimal"@ || t == "double"@ || t == "float"@ {
        "1.0"@
    } else if t == "boolean"@ {
        "true"@
    } else if t == "dateTime"@ || t == "dateTimeStamp"@ {
        "2026-01-01T00:00:00Z"@
    } else if t == "date"@ {
        "2026-01-01"@
    } else if t == "time"@ {
        "00:00:00"@
    } else if t == "duration"@ {
        "PT1S"@
    } else if t == "anyURI"@ {
        "urn:example:conformance"@
    } else if t == "language"@ {
        "en"@
    } else {
        "x"@
    }
}

/// The XSD namespace, as characters.
pub open spec fn xsd_ns() -> Seq<char> {
    "http://www.w3.org/2001/XMLSchema#"@
}

/// The smallest plausible value an input admits: its default, else the first
/// `one_of`, else a value shaped by its `class`, else a placeholder.
pub open spec fn sample(a: ArgSpec) -> Seq<char> {
    match a.default {
        Some(d) => d@,
        None => if a.one_of@.len() > 0 {
            a.one_of@[0]@
        } else {
            match a.class {
                None => "x"@,
                Some(c) => if xsd_ns().is_prefix_of(c@) {
                    xsd_sample(c@.skip(xsd_ns().len() as int))
                } else {
                    "urn:example:conformance"@
                },
            }
        },
    }
}

/// The value derived for an XSD datatype local name.
fn xsd_value(t: &str) -> (r: &'static str)
    ensures
        r@ == xsd_sample(t@),
{
    if same(t, "integer") || same(t, "int") || same(t, "long") || same(t, "short") || same(
        t,
        "byte",
    ) || same(t, "nonNegativeInteger") || same(t, "positiveInteger") || same(t, "unsignedInt")
        || same(t, "unsignedLong") || same(t, "unsignedShort") {
        "1"
    } else if same(t, "decimal") || same(t, "double") || same(t, "float") {
        "1.0"
    } else if same(t, "boolean") {
        "true"
    } else if same(t, "dateTime") || same(t, "dateTimeStamp") {
        "2026-01-01T00:00:00Z"
    } else if same(t, "date") {
        "2026-01-01"
    } else if same(t, "time") {
        "00:00:00"
    } else if same(t, "duration") {
        "PT1S"
    } else if same(t, "anyURI") {
        PLACEHOLDER_IRI
    } else if same(t, "language") {
        "en"
    } else {
        PLACEHOLDER
    }
}

/// The smallest plausible value the ArgSpec admits: its default, else the first
/// `one_of`, else a value shaped by its `class`, else a placeholder.
pub fn sample_value(spec: &ArgSpec) -> (r: String)
    ensures
        r@ == sample(*spec),
{
    if let Some(d) = &spec.default {
        return d.clone();
    }
    if spec.one_of.len() > 0 {
        return spec.one_of[0].clone();
    }
    match &spec.class {
        None => owned(PLACEHOLDER),
        Some(class) => {
            proof {
                reveal_strlit("http://www.w3.org/2001/XMLSchema#");
            }
            if starts_with(class.as_str(), "http://www.w3.org/2001/XMLSchema#") {
                let n = class.as_str().unicode_len();
                let local = class.as_str().substring_char(33, n);
                assert(local@ =~= class@.skip(xsd_ns().len() as int));
                owned(xsd_value(local))
            } else {
                owned(PLACEHOLDER_IRI)
            }
        },
    }
}

/// The value the inputs derive for `name`: the sample of the last required
/// by-value input so named.
pub open spec fn derived(inputs: Seq<ArgSpec>, name: Seq<char>) -> Option<Seq<char>>
    decreases inputs.len(),
{
    if inputs.len() == 0 {
        None
    } else if inputs.last().required && inputs.last().source == InputSource::Argument
        && inputs.last().name@ == name {
        Some(sample(inputs.last()))
    } else {
        derived(inputs.drop_last(), name)
    }
}

/// The minimal by-value argument for `name` of an action: the fixture's when it
/// supplies one, else the derived one.
pub open spec fn minimal_arg(s: Suite, id: Seq<char>, spec: ActionSpec, name: Seq<char>) -> Option<
    Seq<char>,
> {
    match first_fixture(s.fixtures@, id, spec.verb) {
        Some(f) => match last_value(f.args@, name) {
            Some(v) => Some(v),
            None => derived(spec.inputs@, name),
        },
        None => derived(spec.inputs@, name),
    }
}

/// The minimal by-value arguments for an action: one derived value per required
/// by-value input, overlaid with the fixture's arguments; sorted by name.
pub fn args_for(suite: &Suite, id: &str, spec: &ActionSpec) -> (r: Vec<(String, String)>)
    ensures
        sorted_pairs(r@),
        forall|n: Seq<char>| #[trigger] lookup(r@, n) == minimal_arg(*suite, id@, *spec, n),
{
    let mut args: Vec<(String, String)> = Vec::new();
    let mut i: usize = 0;
    proof {
        assert(sorted_pairs(args@)) by {
            assert(crate::pairs::names(args@) =~= Seq::<Seq<char>>::empty());
        }
    }
    while i < spec.inputs.len()
        invariant
            i <= spec.inputs@.len(),
            sorted_pairs(args@),
            forall|n: Seq<char>| #[trigger] lookup(args@, n) == derived(spec.inputs@.take(i as int), n),
        decreases spec.inputs@.len() - i,
    {
        let input = &spec.inputs[i];
        if input.required && input.source == InputSource::Argument {
            let v = sample_value(input);
            put(&mut args, input.name.clone(), v);
        }
        proof {
            assert(spec.inputs@.take(i + 1).drop_last() =~= spec.inputs@.take(i as int));
            assert(spec.inputs@.take(i + 1).last() == *input);
        }
        i = i + 1;
    }
    assert(spec.inputs@.take(spec.inputs@.len() as int) =~= spec.inputs@);
    let ghost derived_args = args@;
    match suite.fixture_for(id, spec.verb) {
        Some(f) => {
            let mut j: usize = 0;
            assert(f.args@.take(0) =~= Seq::<(String, String)>::empty());
            while j < f.args.len()
                invariant
                    j <= f.args@.len(),
                    sorted_pairs(args@),
                    forall|n: Seq<char>| #[trigger] lookup(args@, n) == match last_value(
                        f.args@.take(j as int),
                        n,
                    ) {
                        Some(v) => Some(v),
                        None => lookup(derived_args, n),
                    },
                decreases f.args@.len() - j,
            {
                put(&mut args, f.args[j].0.clone(), f.args[j].1.clone());
                proof {
                    assert(f.args@.take(j + 1).drop_last() =~= f.args@.take(j as int));
                    assert(f.args@.take(j + 1).last() == f.args@[j as int]);
                }
                j = j + 1;
            }
            assert(f.args@.take(f.args@.len() as int) =~= f.args@);
        },
        None => {},
    }
    args
}

} // verus!
