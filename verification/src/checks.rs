//! The checks, individually selectable so a module can adopt incrementally.
use std::ops::{BitOr, Sub};
use vstd::prelude::*;
use vstd::std_specs::convert::FromSpecImpl;
use vstd::std_specs::ops::{BitOrSpecImpl, SubSpecImpl};

verus! {

/// One rule of the module recipe, as a check. Each names the recipe row it
/// mechanizes.
#[derive(Clone, Copy, Debug, PartialEq, Eq, Structural, Hash, PartialOrd, Ord)]
pub enum Check {
    /// Every description declares at least one action; every declared input has a
    /// `class`; a `default` is one of the `one_of` values when both exist; names are
    /// unique per action; every template variable is a declared binding input.
    ArgSpecs,
    /// A description carrying `requires` and no verb (other than `Meta`) declares a
    /// floor the kernel never enforces.
    RequiresVerb,
    /// Every action with a `requires` is refused with a typed `Denied` under a
    /// capability holding no grants; an action declaring nothing is not.
    Enforced,
    /// A mutating action declaring no `requires` must not mutate under a capability
    /// holding no grants.
    Authority,
    /// The bare media type of the minimal resolution is one of the action's declared
    /// `outputs`.
    Outputs,
    /// Every declared RDF face resolves, parses, and carries no blank node.
    SkolemRdf,
    /// Every predicate and class in an RDF face is defined in the shared vocabulary, or
    /// lives under a well-known or module-registered namespace.
    Vocabulary,
    /// A result marked cacheable is served from the cache the second time,
    /// byte-identical, and depends on a golden thread unless declared pure.
    Cacheable,
    /// A mutating action with by-value inputs declares `content`, and an action
    /// declaring `content` reads it.
    Pipeline,
    /// A description id is a short noun in `kebab-case`.
    Names,
    /// Every declaration the module made reached the check that would honour it.
    Declarations,
}

/// Every check, in report order.
pub open spec fn all_checks() -> Seq<Check> {
    seq![
        Check::ArgSpecs,
        Check::RequiresVerb,
        Check::Enforced,
        Check::Authority,
        Check::Outputs,
        Check::SkolemRdf,
        Check::Vocabulary,
        Check::Cacheable,
        Check::Pipeline,
        Check::Names,
        Check::Declarations,
    ]
}

/// The bit a check occupies in a [`Checks`] set.
pub open spec fn check_bit(c: Check) -> u16 {
    match c {
        Check::ArgSpecs => 1,
        Check::RequiresVerb => 2,
        Check::Enforced => 4,
        Check::Authority => 8,
        Check::Outputs => 16,
        Check::SkolemRdf => 32,
        Check::Vocabulary => 64,
        Check::Cacheable => 128,
        Check::Pipeline => 256,
        Check::Names => 512,
        Check::Declarations => 1024,
    }
}

/// The label a report line carries for a check.
pub open spec fn check_label(c: Check) -> Seq<char> {
    match c {
        Check::ArgSpecs => "ARGSPECS"@,
        Check::RequiresVerb => "REQUIRES-VERB"@,
        Check::Enforced => "ENFORCED"@,
        Check::Authority => "AUTHORITY"@,
        Check::Outputs => "OUTPUTS"@,
        Check::SkolemRdf => "SKOLEM-RDF"@,
        Check::Vocabulary => "VOCABULARY"@,
        Check::Cacheable => "CACHEABLE"@,
        Check::Pipeline => "PIPELINE"@,
        Check::Names => "NAMES"@,
        Check::Declarations => "DECLARATIONS"@,
    }
}

/// Whether a check resolves endpoints (and so respects opt-outs), as opposed to
/// reading descriptions only.
pub open spec fn check_invokes(c: Check) -> bool {
    match c {
        Check::Enforced | Check::Authority | Check::Outputs | Check::SkolemRdf
        | Check::Vocabulary | Check::Cacheable | Check::Pipeline => true,
        _ => false,
    }
}

impl Check {
    /// Every check, in report order.
    pub const ALL: [Check; 11] = [
        Check::ArgSpecs,
        Check::RequiresVerb,
        Check::Enforced,
        Check::Authority,
        Check::Outputs,
        Check::SkolemRdf,
        Check::Vocabulary,
        Check::Cacheable,
        Check::Pipeline,
        Check::Names,
        Check::Declarations,
    ];

    /// The short upper-case label a report line carries.
    pub fn label(self) -> (r: &'static str)
        ensures
            r@ == check_label(self),
    {
        match self {
            Check::ArgSpecs => "ARGSPECS",
            Check::RequiresVerb => "REQUIRES-VERB",
            Check::Enforced => "ENFORCED",
            Check::Authority => "AUTHORITY",
            Check::Outputs => "OUTPUTS",
            Check::SkolemRdf => "SKOLEM-RDF",
            Check::Vocabulary => "VOCABULARY",
            Check::Cacheable => "CACHEABLE",
            Check::Pipeline => "PIPELINE",
            Check::Names => "NAMES",
            Check::Declarations => "DECLARATIONS",
        }
    }

    /// Whether this check resolves endpoints (and so respects opt-outs), as
    /// opposed to reading descriptions only.
    pub fn invokes(self) -> (r: bool)
        ensures
            r == check_invokes(self),
    {
        match self {
            Check::Enforced | Check::Authority | Check::Outputs | Check::SkolemRdf
            | Check::Vocabulary | Check::Cacheable | Check::Pipeline => true,
            _ => false,
        }
    }

    /// The bit this check occupies in a [`Checks`] set.
    pub fn bit(self) -> (r: u16)
        ensures
            r == check_bit(self),
    {
        match self {
            Check::ArgSpecs => 1,
            Check::RequiresVerb => 2,
            Check::Enforced => 4,
            Check::Authority => 8,
            Check::Outputs => 16,
            Check::SkolemRdf => 32,
            Check::Vocabulary => 64,
            Check::Cacheable => 128,
            Check::Pipeline => 256,
            Check::Names => 512,
            Check::Declarations => 1024,
        }
    }

    /// Every check, in report order, as a vector.
    pub fn all_in_order() -> (r: Vec<Check>)
        ensures
            r@ == all_checks(),
    {
        let r = vec![
            Check::ArgSpecs,
            Check::RequiresVerb,
            Check::Enforced,
            Check::Authority,
            Check::Outputs,
            Check::SkolemRdf,
            Check::Vocabulary,
            Check::Cacheable,
            Check::Pipeline,
            Check::Names,
            Check::Declarations,
        ];
        assert(r@ =~= all_checks());
        r
    }
}

/// A single bit of a `u16` is set in a union exactly when it is set in one of
/// the operands, and in a difference exactly when it is set in the first and not
/// in the second.
pub(crate) proof fn lemma_single_bit(a: u16, b: u16, m: u16)
    by (bit_vector)
    requires
        m == 1 || m == 2 || m == 4 || m == 8 || m == 16 || m == 32 || m == 64 || m == 128
            || m == 256 || m == 512 || m == 1024,
    ensures
        ((a | b) & m != 0) == ((a & m != 0) || (b & m != 0)),
        ((a & !b) & m != 0) == ((a & m != 0) && !(b & m != 0)),
        (2047u16 & m) != 0,
        (0u16 & m) == 0,
        (m & m) != 0,
{
}

/// Distinct checks occupy distinct bits, so a set holding one check holds no
/// other by accident.
pub(crate) proof fn lemma_bit_alone(c: Check, d: Check)
    ensures
        (check_bit(c) & check_bit(d) != 0) == (c == d),
{
    let m = check_bit(c);
    let n = check_bit(d);
    assert((m & n != 0) == (m == n)) by (bit_vector)
        requires
            m == 1 || m == 2 || m == 4 || m == 8 || m == 16 || m == 32 || m == 64 || m == 128
                || m == 256 || m == 512 || m == 1024,
            n == 1 || n == 2 || n == 4 || n == 8 || n == 16 || n == 32 || n == 64 || n == 128
                || n == 256 || n == 512 || n == 1024,
    ;
}

/// A set of [`Check`]s. Combine with `|`, remove with `-`.
#[derive(Clone, Copy, Debug, PartialEq, Eq, Structural, Hash)]
pub struct Checks(pub u16);

impl View for Checks {
    type V = Set<Check>;

    /// The checks whose bit is set.
    open spec fn view(&self) -> Set<Check> {
        Set::new(|c: Check| self.0 & check_bit(c) != 0)
    }
}

/// The checks of `order` that a set selects (`keep == true`) or leaves out
/// (`keep == false`), in that order.
pub open spec fn checks_where(order: Seq<Check>, set: Set<Check>, keep: bool) -> Seq<Check> {
    order.filter(|c: Check| set.contains(c) == keep)
}

/// The union of two selections, bit by bit (what `|` gives).
pub open spec fn checks_union(a: Checks, b: Checks) -> Checks {
    Checks(a.0 | b.0)
}

/// A selection without the checks of another, bit by bit (what `-` gives).
pub open spec fn checks_minus(a: Checks, b: Checks) -> Checks {
    Checks(a.0 & !b.0)
}

impl Checks {
    /// [`Check::ArgSpecs`].
    pub fn argspecs() -> (r: Checks)
        ensures
            r.0 == 1,
    {
        Checks(1)
    }
    /// [`Check::RequiresVerb`].
    pub fn requires_verb() -> (r: Checks)
        ensures
            r.0 == 2,
    {
        Checks(2)
    }
    /// [`Check::Enforced`].
    pub fn enforced() -> (r: Checks)
        ensures
            r.0 == 4,
    {
        Checks(4)
    }
    /// [`Check::Authority`].
    pub fn authority() -> (r: Checks)
        ensures
            r.0 == 8,
    {
        Checks(8)
    }
    /// [`Check::Outputs`].
    pub fn outputs() -> (r: Checks)
        ensures
            r.0 == 16,
    {
        Checks(16)
    }
    /// [`Check::SkolemRdf`].
    pub fn skolem_rdf() -> (r: Checks)
        ensures
            r.0 == 32,
    {
        Checks(32)
    }
    /// [`Check::Vocabulary`].
    pub fn vocabulary() -> (r: Checks)
        ensures
            r.0 == 64,
    {
        Checks(64)
    }
    /// [`Check::Cacheable`].
    pub fn cacheable() -> (r: Checks)
        ensures
            r.0 == 128,
    {
        Checks(128)
    }
    /// [`Check::Pipeline`].
    pub fn pipeline() -> (r: Checks)
        ensures
            r.0 == 256,
    {
        Checks(256)
    }
    /// [`Check::Names`].
    pub fn names() -> (r: Checks)
        ensures
            r.0 == 512,
    {
        Checks(512)
    }
    /// [`Check::Declarations`].
    pub fn declarations() -> (r: Checks)
        ensures
            r.0 == 1024,
    {
        Checks(1024)
    }
    /// Both RDF-face checks: [`Check::SkolemRdf`] and [`Check::Vocabulary`].
    pub fn rdf() -> (r: Checks)
        ensures
            r.0 == 96,
    {
        Checks(96)
    }

    /// Every check.
    pub fn all() -> (r: Checks)
        ensures
            r.0 == 2047,
            forall|c: Check| #[trigger] r@.contains(c),
    {
        let r = Checks(2047);
        assert forall|c: Check| #[trigger] r@.contains(c) by {
            lemma_single_bit(0, 0, check_bit(c));
        }
        r
    }

    /// No check (build up with `|`).
    pub fn none() -> (r: Checks)
        ensures
            r == Checks(0),
            r@ == Set::<Check>::empty(),
    {
        let r = Checks(0);
        assert forall|c: Check| !(#[trigger] r@.contains(c)) by {
            lemma_single_bit(0, 0, check_bit(c));
        }
        assert(r@ =~= Set::<Check>::empty());
        r
    }

    /// The set holding exactly one check.
    pub fn single(check: Check) -> (r: Checks)
        ensures
            r@ == set![check],
    {
        let r = Checks(check.bit());
        assert forall|c: Check| #[trigger] r@.contains(c) == (c == check) by {
            lemma_bit_alone(check, c);
        }
        assert(r@ =~= set![check]);
        r
    }

    /// Whether `check` is selected.
    pub fn contains(self, check: Check) -> (r: bool)
        ensures
            r == self@.contains(check),
    {
        self.0 & check.bit() != 0
    }

    /// The union of two selections.
    pub fn union(self, other: Checks) -> (r: Checks)
        ensures
            r == checks_union(self, other),
            r@ == self@.union(other@),
    {
        let r = Checks(self.0 | other.0);
        assert forall|c: Check| #[trigger] r@.contains(c) == (self@.contains(c) || other@.contains(c)) by {
            lemma_single_bit(self.0, other.0, check_bit(c));
        }
        assert(r@ =~= self@.union(other@));
        r
    }

    /// This selection without the checks of `other`.
    pub fn without(self, other: Checks) -> (r: Checks)
        ensures
            r == checks_minus(self, other),
            r@ == self@.difference(other@),
    {
        let r = Checks(self.0 & !other.0);
        assert forall|c: Check| #[trigger] r@.contains(c) == (self@.contains(c) && !other@.contains(c)) by {
            lemma_single_bit(self.0, other.0, check_bit(c));
        }
        assert(r@ =~= self@.difference(other@));
        r
    }

    /// The checks of `order` this selection keeps (`keep`) or leaves out, in order.
    fn select(self, keep: bool) -> (r: Vec<Check>)
        ensures
            r@ == checks_where(all_checks(), self@, keep),
    {
        let order = Check::all_in_order();
        let ghost pred = |c: Check| self@.contains(c) == keep;
        let mut r: Vec<Check> = Vec::new();
        let mut i: usize = 0;
        while i < order.len()
            invariant
                i <= order.len(),
                order@ == all_checks(),
                pred == (|c: Check| self@.contains(c) == keep),
                r@ == order@.take(i as int).filter(pred),
            decreases order.len() - i,
        {
            let c = order[i];
            proof {
                reveal(Seq::filter);
                assert(order@.take(i + 1).drop_last() =~= order@.take(i as int));
                assert(order@.take(i + 1).last() == c);
                assert(order@.take(i + 1).filter(pred) == if pred(c) {
                    order@.take(i as int).filter(pred).push(c)
                } else {
                    order@.take(i as int).filter(pred)
                });
            }
            if self.contains(c) == keep {
                assert(pred(c));
                r.push(c);
            } else {
                assert(!pred(c));
            }
            i = i + 1;
        }
        assert(order@.take(order.len() as int) =~= order@);
        r
    }

    /// The selected checks, in report order.
    pub fn iter(self) -> (r: Vec<Check>)
        ensures
            r@ == checks_where(all_checks(), self@, true),
    {
        self.select(true)
    }

    /// The checks NOT selected, in report order — what a report prints as skipped.
    pub fn skipped(self) -> (r: Vec<Check>)
        ensures
            r@ == checks_where(all_checks(), self@, false),
    {
        self.select(false)
    }
}

impl From<Check> for Checks {
    fn from(check: Check) -> (r: Checks) {
        Checks(check.bit())
    }
}

impl FromSpecImpl<Check> for Checks {
    open spec fn obeys_from_spec() -> bool {
        true
    }

    open spec fn from_spec(v: Check) -> Checks {
        Checks(check_bit(v))
    }
}

impl BitOr for Checks {
    type Output = Checks;

    fn bitor(self, rhs: Checks) -> (r: Checks) {
        Checks(self.0 | rhs.0)
    }
}

impl BitOrSpecImpl for Checks {
    open spec fn obeys_bitor_spec() -> bool {
        true
    }

    open spec fn bitor_req(self, rhs: Checks) -> bool {
        true
    }

    open spec fn bitor_spec(self, rhs: Checks) -> Checks {
        checks_union(self, rhs)
    }
}

impl BitOr<Check> for Checks {
    type Output = Checks;

    fn bitor(self, rhs: Check) -> (r: Checks) {
        Checks(self.0 | rhs.bit())
    }
}

impl BitOrSpecImpl<Check> for Checks {
    open spec fn obeys_bitor_spec() -> bool {
        true
    }

    open spec fn bitor_req(self, rhs: Check) -> bool {
        true
    }

    open spec fn bitor_spec(self, rhs: Check) -> Checks {
        checks_union(self, Checks(check_bit(rhs)))
    }
}

impl Sub for Checks {
    type Output = Checks;

    fn sub(self, rhs: Checks) -> (r: Checks) {
        Checks(self.0 & !rhs.0)
    }
}

impl SubSpecImpl for Checks {
    open spec fn obeys_sub_spec() -> bool {
        true
    }

    open spec fn sub_req(self, rhs: Checks) -> bool {
        true
    }

    open spec fn sub_spec(self, rhs: Checks) -> Checks {
        checks_minus(self, rhs)
    }
}

impl Sub<Check> for Checks {
    type Output = Checks;

    fn sub(self, rhs: Check) -> (r: Checks) {
        Checks(self.0 & !rhs.bit())
    }
}

impl SubSpecImpl<Check> for Checks {
    open spec fn obeys_sub_spec() -> bool {
        true
    }

    open spec fn sub_req(self, rhs: Check) -> bool {
        true
    }

    open spec fn sub_spec(self, rhs: Check) -> Checks {
        checks_minus(self, Checks(check_bit(rhs)))
    }
}

} // verus!
