//! Name–value pairs kept sorted by name, each name once: the arguments of a
//! request and the values of template variables.
use crate::text::{ascending, before, insert_sorted, lemma_before_total, lemma_before_transitive, less, same};
use vstd::prelude::*;

verus! {

/// The names of `pairs`, in order.
pub open spec fn names(pairs: Seq<(String, String)>) -> Seq<Seq<char>> {
    pairs.map_values(|p: (String, String)| p.0@)
}

/// Whether `pairs` is well-formed: names strictly ascending, so each once.
pub open spec fn sorted_pairs(pairs: Seq<(String, String)>) -> bool {
    ascending(names(pairs))
}

/// The value `pairs` gives `name`, if any.
pub open spec fn lookup(pairs: Seq<(String, String)>, name: Seq<char>) -> Option<Seq<char>> {
    if exists|i: int| 0 <= i < pairs.len() && #[trigger] pairs[i].0@ == name {
        Some(pairs[choose|i: int| 0 <= i < pairs.len() && #[trigger] pairs[i].0@ == name].1@)
    } else {
        None
    }
}

/// The value the last pair named `name` carries, if any: what a name gets when
/// the pairs are applied one after another, each overriding the one before.
pub open spec fn last_value(pairs: Seq<(String, String)>, name: Seq<char>) -> Option<Seq<char>>
    decreases pairs.len(),
{
    if pairs.len() == 0 {
        None
    } else if pairs.last().0@ == name {
        Some(pairs.last().1@)
    } else {
        last_value(pairs.drop_last(), name)
    }
}

/// In well-formed pairs, a name occurs at one index only.
pub proof fn lemma_unique_name(pairs: Seq<(String, String)>, i: int, j: int)
    requires
        sorted_pairs(pairs),
        0 <= i < pairs.len(),
        0 <= j < pairs.len(),
        pairs[i].0@ == pairs[j].0@,
    ensures
        i == j,
{
    if i < j {
        assert(before(names(pairs)[i], names(pairs)[j]));
        lemma_before_total(pairs[i].0@, pairs[j].0@);
    } else if j < i {
        assert(before(names(pairs)[j], names(pairs)[i]));
        lemma_before_total(pairs[i].0@, pairs[j].0@);
    }
}

/// In well-formed pairs, the value at the index holding a name is its value.
pub proof fn lemma_lookup_at(pairs: Seq<(String, String)>, i: int)
    requires
        sorted_pairs(pairs),
        0 <= i < pairs.len(),
    ensures
        lookup(pairs, pairs[i].0@) == Some(pairs[i].1@),
{
    let k = choose|k: int| 0 <= k < pairs.len() && #[trigger] pairs[k].0@ == pairs[i].0@;
    lemma_unique_name(pairs, i, k);
}

/// The value the first pair named `name` carries, if any.
pub open spec fn first_value(pairs: Seq<(String, String)>, name: Seq<char>) -> Option<Seq<char>>
    decreases pairs.len(),
{
    if pairs.len() == 0 {
        None
    } else if pairs[0].0@ == name {
        Some(pairs[0].1@)
    } else {
        first_value(pairs.drop_first(), name)
    }
}

proof fn lemma_first_value(pairs: Seq<(String, String)>, name: Seq<char>, i: int)
    requires
        0 <= i <= pairs.len(),
        forall|j: int| 0 <= j < i ==> #[trigger] pairs[j].0@ != name,
    ensures
        i < pairs.len() && pairs[i].0@ == name ==> first_value(pairs, name) == Some(pairs[i].1@),
        i == pairs.len() ==> first_value(pairs, name) is None,
    decreases i,
{
    if i > 0 {
        assert forall|j: int| 0 <= j < i - 1 implies #[trigger] pairs.drop_first()[j].0@ != name by {
            assert(pairs.drop_first()[j] == pairs[j + 1]);
        }
        lemma_first_value(pairs.drop_first(), name, i - 1);
    }
}

/// In well-formed pairs the first value of a name is its value.
pub proof fn lemma_first_is_lookup(pairs: Seq<(String, String)>, name: Seq<char>)
    requires
        sorted_pairs(pairs),
    ensures
        first_value(pairs, name) == lookup(pairs, name),
{
    if exists|i: int| 0 <= i < pairs.len() && #[trigger] pairs[i].0@ == name {
        let i = choose|i: int| 0 <= i < pairs.len() && #[trigger] pairs[i].0@ == name;
        assert forall|j: int| 0 <= j < i implies #[trigger] pairs[j].0@ != name by {
            if pairs[j].0@ == name {
                lemma_unique_name(pairs, i, j);
            }
        }
        lemma_first_value(pairs, name, i);
        lemma_lookup_at(pairs, i);
    } else {
        lemma_first_value(pairs, name, pairs.len() as int);
    }
}

/// The value the first pair named `name` carries, if any.
pub fn find<'a>(pairs: &'a Vec<(String, String)>, name: &str) -> (r: Option<&'a String>)
    ensures
        match r {
            Some(v) => first_value(pairs@, name@) == Some(v@),
            None => first_value(pairs@, name@) is None,
        },
{
    let mut i: usize = 0;
    while i < pairs.len()
        invariant
            i <= pairs@.len(),
            forall|j: int| 0 <= j < i ==> #[trigger] pairs@[j].0@ != name@,
        decreases pairs@.len() - i,
    {
        if same(pairs[i].0.as_str(), name) {
            proof {
                lemma_first_value(pairs@, name@, i as int);
            }
            return Some(&pairs[i].1);
        }
        i = i + 1;
    }
    proof {
        lemma_first_value(pairs@, name@, i as int);
    }
    None
}

/// `pairs` with `name` given `value`: replaced where it is present, inserted in
/// order where it is not.
pub fn put(pairs: &mut Vec<(String, String)>, name: String, value: String)
    requires
        sorted_pairs(old(pairs)@),
    ensures
        sorted_pairs(final(pairs)@),
        forall|n: Seq<char>|
            #![trigger lookup(final(pairs)@, n)]
            lookup(final(pairs)@, n) == if n == name@ {
                Some(value@)
            } else {
                lookup(old(pairs)@, n)
            },
{
    let ghost old_p = pairs@;
    let mut k: usize = 0;
    while k < pairs.len()
        invariant
            k <= pairs@.len(),
            pairs@ == old_p,
            sorted_pairs(old_p),
            forall|j: int| 0 <= j < k ==> before(#[trigger] names(old_p)[j], name@),
        ensures
            k == pairs@.len() || !before(names(old_p)[k as int], name@),
        decreases pairs@.len() - k,
    {
        if !less(pairs[k].0.as_str(), name.as_str()) {
            break;
        }
        k = k + 1;
    }
    let ghost nv = name@;
    let ghost vv = value@;
    if k < pairs.len() && same(pairs[k].0.as_str(), name.as_str()) {
        pairs.set(k, (name, value));
        let ghost new_p = pairs@;
        assert(names(new_p) =~= names(old_p));
        assert forall|n: Seq<char>| #[trigger] lookup(new_p, n) == if n == nv {
            Some(vv)
        } else {
            lookup(old_p, n)
        } by {
            lemma_lookup_at(new_p, k as int);
            if n != nv {
                if exists|i: int| 0 <= i < new_p.len() && #[trigger] new_p[i].0@ == n {
                    let i = choose|i: int| 0 <= i < new_p.len() && #[trigger] new_p[i].0@ == n;
                    lemma_lookup_at(new_p, i);
                    lemma_lookup_at(old_p, i);
                    assert(i != k);
                } else {
                    assert forall|i: int| 0 <= i < old_p.len() implies #[trigger] old_p[i].0@ != n by {
                        if i != k {
                            assert(new_p[i] == old_p[i]);
                        }
                    }
                }
            }
        }
        return;
    }
    proof {
        if k < old_p.len() {
            lemma_before_total(names(old_p)[k as int], nv);
        }
    }
    pairs.insert(k, (name, value));
    let ghost new_p = pairs@;
    assert(new_p =~= old_p.insert(k as int, new_p[k as int]));
    assert(names(new_p) =~= names(old_p).insert(k as int, nv));
    assert forall|i: int, j: int| 0 <= i < j < names(new_p).len() implies before(
        #[trigger] names(new_p)[i],
        #[trigger] names(new_p)[j],
    ) by {
        let nn = names(new_p);
        let no = names(old_p);
        if i < k && j < k {
            assert(nn[i] == no[i] && nn[j] == no[j]);
        } else if i < k && j == k {
        } else if i < k && j > k {
            assert(nn[i] == no[i] && nn[j] == no[j - 1]);
            if j - 1 > i {
            }
        } else if i == k {
            assert(nn[j] == no[j - 1]);
            if j - 1 > k {
                assert(before(no[k as int], no[j - 1]));
                lemma_before_transitive(nv, no[k as int], no[j - 1]);
            }
        } else {
            assert(nn[i] == no[i - 1] && nn[j] == no[j - 1]);
        }
    }
    assert forall|n: Seq<char>| #[trigger] lookup(new_p, n) == if n == nv {
        Some(vv)
    } else {
        lookup(old_p, n)
    } by {
        lemma_lookup_at(new_p, k as int);
        if n != nv {
            if exists|i: int| 0 <= i < new_p.len() && #[trigger] new_p[i].0@ == n {
                let i = choose|i: int| 0 <= i < new_p.len() && #[trigger] new_p[i].0@ == n;
                lemma_lookup_at(new_p, i);
                if i < k {
                    assert(new_p[i] == old_p[i]);
                    lemma_lookup_at(old_p, i);
                } else {
                    assert(new_p[i] == old_p[i - 1]);
                    lemma_lookup_at(old_p, i - 1);
                }
            } else {
                assert forall|i: int| 0 <= i < old_p.len() implies #[trigger] old_p[i].0@ != n by {
                    if i < k {
                        assert(new_p[i] == old_p[i]);
                    } else {
                        assert(new_p[i + 1] == old_p[i]);
                    }
                }
            }
        } else {
        }
    }
}


/// A prefix of well-formed pairs is well-formed, and extending it by one pair
/// gives that pair's name its value and leaves every other name's alone.
pub proof fn lemma_lookup_prefix(pairs: Seq<(String, String)>, j: int, n: Seq<char>)
    requires
        sorted_pairs(pairs),
        0 <= j < pairs.len(),
    ensures
        sorted_pairs(pairs.take(j)),
        sorted_pairs(pairs.take(j + 1)),
        lookup(pairs.take(j + 1), n) == if pairs[j].0@ == n {
            Some(pairs[j].1@)
        } else {
            lookup(pairs.take(j), n)
        },
{
    let a = pairs.take(j);
    let b = pairs.take(j + 1);
    assert(names(a) =~= names(pairs).take(j));
    assert(names(b) =~= names(pairs).take(j + 1));
    assert(sorted_pairs(a));
    assert(sorted_pairs(b));
    if pairs[j].0@ == n {
        assert(b[j] == pairs[j]);
        lemma_lookup_at(b, j);
    } else {
        if exists|i: int| 0 <= i < b.len() && #[trigger] b[i].0@ == n {
            let i = choose|i: int| 0 <= i < b.len() && #[trigger] b[i].0@ == n;
            assert(i != j);
            assert(a[i] == b[i]);
            lemma_lookup_at(b, i);
            lemma_lookup_at(a, i);
        } else {
            assert forall|i: int| 0 <= i < a.len() implies #[trigger] a[i].0@ != n by {
                assert(b[i] == a[i]);
            }
        }
    }
}

} // verus!
