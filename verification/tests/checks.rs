//! The check selection: what it contains, what it skips, and how checks are named.

use ikigai_conformance::statics::is_kebab;
use ikigai_conformance::{Check, Checks};

#[test]
fn all_selects_every_check_and_none_selects_nothing() {
    for c in Check::ALL {
        assert!(Checks::all().contains(c));
        assert!(!Checks::none().contains(c));
    }
    assert_eq!(Checks::all().iter().len(), Check::ALL.len());
    assert_eq!(Checks::all().skipped().len(), 0);
}

#[test]
fn subtraction_removes_and_skipped_reports_it() {
    let without = Checks::all() - Check::Cacheable;
    assert!(!without.contains(Check::Cacheable));
    assert_eq!(without.skipped(), vec![Check::Cacheable]);
    assert_eq!((Checks::all() - Checks::rdf()).skipped().len(), 2);
}

#[test]
fn labels_are_distinct() {
    let mut labels: Vec<&str> = Check::ALL.iter().map(|c| c.label()).collect();
    labels.sort_unstable();
    labels.dedup();
    assert_eq!(labels.len(), Check::ALL.len());
}

#[test]
fn every_check_has_its_own_bit() {
    let mut bits: Vec<u16> = Check::ALL.iter().map(|c| c.bit()).collect();
    bits.sort_unstable();
    bits.dedup();
    assert_eq!(bits.len(), Check::ALL.len());
    assert_eq!(Checks::outputs().iter(), vec![Check::Outputs]);
}

#[test]
fn kebab_case_ids() {
    for ok in ["to-upper", "kernel-catalog", "wc", "a11y-config"] {
        assert!(is_kebab(ok), "{ok}");
    }
    for bad in ["toUpper", "urn:cms:graph", "-x", "x-", "a--b", "", "Tag"] {
        assert!(!is_kebab(bad), "{bad}");
    }
}

#[test]
fn union_and_single_select_exactly_what_they_name() {
    let two = Checks::single(Check::Names) | Check::Pipeline;
    assert!(two.contains(Check::Names));
    assert!(two.contains(Check::Pipeline));
    assert_eq!(two.iter(), vec![Check::Pipeline, Check::Names]);
    assert_eq!(two.skipped().len(), Check::ALL.len() - 2);
    assert_eq!(Checks::from(Check::Vocabulary).iter(), vec![Check::Vocabulary]);
    assert_eq!(Checks::none().union(Checks::enforced()).iter(), vec![Check::Enforced]);
    assert_eq!(Checks::all().without(Checks::all()).iter(), Vec::<Check>::new());
}

#[test]
fn every_check_is_either_run_or_skipped() {
    let some = Checks::enforced() | Checks::names() | Checks::declarations();
    let ran = some.iter();
    let skipped = some.skipped();
    assert_eq!(ran.len() + skipped.len(), Check::ALL.len());
    for c in Check::ALL {
        assert_ne!(ran.contains(&c), skipped.contains(&c), "{c:?}");
    }
}

#[test]
fn the_labels_are_the_recipe_names() {
    assert_eq!(Check::ArgSpecs.label(), "ARGSPECS");
    assert_eq!(Check::RequiresVerb.label(), "REQUIRES-VERB");
    assert_eq!(Check::SkolemRdf.label(), "SKOLEM-RDF");
    assert_eq!(Check::Declarations.label(), "DECLARATIONS");
    assert!(Check::Cacheable.invokes());
    assert!(!Check::Names.invokes());
    assert_eq!(Check::ArgSpecs.bit(), 1);
    assert_eq!(Check::Declarations.bit(), 1024);
}

#[test]
fn none_is_neutral_and_a_set_minus_itself_is_none() {
    let a = Checks::enforced() | Checks::names() | Check::Outputs;
    let b = Checks::rdf();
    assert_eq!(a | Checks::none(), a);
    assert_eq!(a - Checks::none(), a);
    assert_eq!(a - a, Checks::none());
    assert_eq!(a | a, a);
    assert_eq!(a | b, b | a);
    assert_eq!(Checks::none(), Checks(0));
    assert_eq!(Checks::all(), Checks(2047));
    assert!((a - Check::Names).contains(Check::Enforced));
    assert!(!(a - Check::Names).contains(Check::Names));
}
