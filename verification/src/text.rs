//! Text the report is made of: comparing, trimming, lower-casing and building
//! strings, each stated over the characters it holds.
use vstd::prelude::*;
use vstd::string::StringExecFns;

verus! {

/// Appends one character (`String::push`).
#[verifier::external_body]
pub fn push_char(s: &mut String, c: char)
    ensures
        final(s)@ == old(s)@.push(c),
{
    s.push(c);
}

/// What `format!("{:?}", s)` writes for a string: the text quoted and escaped the
/// way `str`'s `Debug` escapes it.
pub uninterp spec fn debug_quoted(s: Seq<char>) -> Seq<char>;

/// The string's `Debug` form (`format!("{:?}", s)`): quoted, with quotes,
/// backslashes and control characters escaped. The escaping rules are std's;
/// nothing here states them beyond naming the result.
#[verifier::external_body]
pub fn debug_string(s: &str) -> (r: String)
    ensures
        r@ == debug_quoted(s@),
{
    format!("{s:?}")
}

/// A fresh string holding `s`.
pub fn owned(s: &str) -> (r: String)
    ensures
        r@ == s@,
{
    String::from_str(s)
}

/// Appends `tail` to `s`.
pub fn append(s: &mut String, tail: &str)
    ensures
        final(s)@ == old(s)@ + tail@,
{
    s.append(tail);
}

/// `s` followed by `tail`.
pub fn cat(s: String, tail: &str) -> (r: String)
    ensures
        r@ == s@ + tail@,
{
    let mut s = s;
    s.append(tail);
    s
}

/// Whether two strings hold the same characters.
pub fn same(a: &str, b: &str) -> (r: bool)
    ensures
        r == (a@ == b@),
{
    let n = a.unicode_len();
    if n != b.unicode_len() {
        return false;
    }
    let mut i: usize = 0;
    while i < n
        invariant
            n == a@.len() == b@.len(),
            i <= n,
            forall|j: int| 0 <= j < i ==> a@[j] == b@[j],
        decreases n - i,
    {
        if a.get_char(i) != b.get_char(i) {
            return false;
        }
        i = i + 1;
    }
    assert(a@ =~= b@);
    true
}

/// Whether `s` begins with `prefix`.
pub fn starts_with(s: &str, prefix: &str) -> (r: bool)
    ensures
        r == prefix@.is_prefix_of(s@),
{
    let n = prefix.unicode_len();
    if n > s.unicode_len() {
        return false;
    }
    let mut i: usize = 0;
    while i < n
        invariant
            n == prefix@.len() <= s@.len(),
            i <= n,
            forall|j: int| 0 <= j < i ==> prefix@[j] == s@[j],
        decreases n - i,
    {
        if s.get_char(i) != prefix.get_char(i) {
            return false;
        }
        i = i + 1;
    }
    true
}

/// Whether `c` occurs in `s`.
pub fn has_char(s: &str, c: char) -> (r: bool)
    ensures
        r == s@.contains(c),
{
    let n = s.unicode_len();
    let mut i: usize = 0;
    while i < n
        invariant
            n == s@.len(),
            i <= n,
            forall|j: int| 0 <= j < i ==> s@[j] != c,
        decreases n - i,
    {
        if s.get_char(i) == c {
            assert(s@[i as int] == c);
            return true;
        }
        i = i + 1;
    }
    false
}

/// Whether `s` is one of `items`.
pub fn is_listed(items: &Vec<String>, s: &str) -> (r: bool)
    ensures
        r == exists|i: int| 0 <= i < items@.len() && #[trigger] items@[i]@ == s@,
{
    let mut i: usize = 0;
    while i < items.len()
        invariant
            i <= items@.len(),
            forall|j: int| 0 <= j < i ==> #[trigger] items@[j]@ != s@,
        decreases items.len() - i,
    {
        if same(items[i].as_str(), s) {
            return true;
        }
        i = i + 1;
    }
    false
}

/// The characters of `s` before its first `c` (all of `s` when it has none).
pub open spec fn before_first(s: Seq<char>, c: char) -> Seq<char>
    decreases s.len(),
{
    if s.len() == 0 {
        s
    } else if s[0] == c {
        Seq::empty()
    } else {
        seq![s[0]] + before_first(s.drop_first(), c)
    }
}

proof fn lemma_before_first(s: Seq<char>, c: char, k: int)
    requires
        0 <= k <= s.len(),
        forall|j: int| 0 <= j < k ==> s[j] != c,
        k == s.len() || s[k] == c,
    ensures
        before_first(s, c) == s.subrange(0, k),
    decreases s.len(),
{
    if s.len() == 0 {
        assert(s.subrange(0, 0) =~= s);
    } else if k == 0 {
        assert(s.subrange(0, 0) =~= Seq::<char>::empty());
    } else {
        lemma_before_first(s.drop_first(), c, k - 1);
        assert(seq![s[0]] + s.drop_first().subrange(0, k - 1) =~= s.subrange(0, k));
    }
}

/// The characters before the first `c`.
pub fn prefix_before(s: &str, c: char) -> (r: &str)
    ensures
        r@ == before_first(s@, c),
{
    let n = s.unicode_len();
    let mut i: usize = 0;
    while i < n
        invariant
            n == s@.len(),
            i <= n,
            forall|j: int| 0 <= j < i ==> s@[j] != c,
        ensures
            i == n || s@[i as int] == c,
        decreases n - i,
    {
        if s.get_char(i) == c {
            break;
        }
        i = i + 1;
    }
    proof {
        lemma_before_first(s@, c, i as int);
    }
    s.substring_char(0, i)
}

/// Whether `c` is white space as `char::is_whitespace` defines it: the Unicode
/// `White_Space` property.
pub open spec fn is_space(c: char) -> bool {
    ||| '\u{9}' <= c <= '\u{d}'
    ||| c == ' '
    ||| c == '\u{85}'
    ||| c == '\u{a0}'
    ||| c == '\u{1680}'
    ||| '\u{2000}' <= c <= '\u{200a}'
    ||| c == '\u{2028}'
    ||| c == '\u{2029}'
    ||| c == '\u{202f}'
    ||| c == '\u{205f}'
    ||| c == '\u{3000}'
}

/// `char::is_whitespace`.
pub fn space(c: char) -> (r: bool)
    ensures
        r == is_space(c),
{
    ('\u{9}' <= c && c <= '\u{d}') || c == ' ' || c == '\u{85}' || c == '\u{a0}' || c
        == '\u{1680}' || ('\u{2000}' <= c && c <= '\u{200a}') || c == '\u{2028}' || c
        == '\u{2029}' || c == '\u{202f}' || c == '\u{205f}' || c == '\u{3000}'
}

/// How many white-space characters `s` begins with.
pub open spec fn leading_space(s: Seq<char>) -> int
    decreases s.len(),
{
    if s.len() == 0 {
        0
    } else if is_space(s[0]) {
        1 + leading_space(s.drop_first())
    } else {
        0
    }
}

/// How many white-space characters `s` ends with.
pub open spec fn trailing_space(s: Seq<char>) -> int
    decreases s.len(),
{
    if s.len() == 0 {
        0
    } else if is_space(s.last()) {
        1 + trailing_space(s.drop_last())
    } else {
        0
    }
}

/// `s` without leading and trailing white space (`str::trim`).
pub open spec fn trimmed(s: Seq<char>) -> Seq<char> {
    if leading_space(s) == s.len() {
        Seq::empty()
    } else {
        s.subrange(leading_space(s), s.len() - trailing_space(s))
    }
}

proof fn lemma_leading_space(s: Seq<char>, k: int)
    requires
        0 <= k <= s.len(),
        forall|j: int| 0 <= j < k ==> is_space(s[j]),
        k == s.len() || !is_space(s[k]),
    ensures
        leading_space(s) == k,
    decreases s.len(),
{
    if s.len() > 0 && k > 0 {
        lemma_leading_space(s.drop_first(), k - 1);
    }
}

proof fn lemma_trailing_space(s: Seq<char>, k: int)
    requires
        0 <= k <= s.len(),
        forall|j: int| s.len() - k <= j < s.len() ==> is_space(s[j]),
        k == s.len() || !is_space(s[s.len() - k - 1]),
    ensures
        trailing_space(s) == k,
    decreases s.len(),
{
    if s.len() > 0 && k > 0 {
        lemma_trailing_space(s.drop_last(), k - 1);
    }
}

/// `s` without leading and trailing white space.
pub fn trim(s: &str) -> (r: &str)
    ensures
        r@ == trimmed(s@),
{
    let n = s.unicode_len();
    let mut start: usize = 0;
    while start < n
        invariant
            n == s@.len(),
            start <= n,
            forall|j: int| 0 <= j < start ==> is_space(s@[j]),
        ensures
            start == n || !is_space(s@[start as int]),
        decreases n - start,
    {
        if !space(s.get_char(start)) {
            break;
        }
        start = start + 1;
    }
    proof {
        lemma_leading_space(s@, start as int);
    }
    if start == n {
        return s.substring_char(0, 0);
    }
    let mut end: usize = n;
    while end > start
        invariant
            n == s@.len(),
            start < n,
            !is_space(s@[start as int]),
            start <= end <= n,
            forall|j: int| end <= j < n ==> is_space(s@[j]),
        ensures
            end == start || !is_space(s@[end - 1]),
        decreases end,
    {
        if !space(s.get_char(end - 1)) {
            break;
        }
        end = end - 1;
    }
    proof {
        if end == start {
            assert(false);
        }
        lemma_trailing_space(s@, (n - end) as int);
    }
    s.substring_char(start, end)
}

/// `c` with an ASCII upper-case letter mapped to lower case (`char::to_ascii_lowercase`).
pub open spec fn ascii_lower(c: char) -> char {
    if 'A' <= c <= 'Z' {
        ((c as u32) + 32) as char
    } else {
        c
    }
}

/// `s` with every ASCII upper-case letter lower-cased (`str::to_ascii_lowercase`).
pub open spec fn lowered(s: Seq<char>) -> Seq<char> {
    s.map_values(|c: char| ascii_lower(c))
}

/// `char::to_ascii_lowercase`.
pub fn lower_char(c: char) -> (r: char)
    ensures
        r == ascii_lower(c),
{
    if 'A' <= c && c <= 'Z' {
        let code: u32 = (c as u32) + 32;
        assert(0x61 <= code <= 0x7a);
        char_from(code)
    } else {
        c
    }
}

/// The character of an ASCII code.
fn char_from(code: u32) -> (r: char)
    requires
        code < 128,
    ensures
        r == code as char,
{
    let b: u8 = code as u8;
    b as char
}

/// `str::to_ascii_lowercase`.
pub fn lower(s: &str) -> (r: String)
    ensures
        r@ == lowered(s@),
{
    let n = s.unicode_len();
    let mut r = String::new();
    let mut i: usize = 0;
    while i < n
        invariant
            n == s@.len(),
            i <= n,
            r@ == lowered(s@.take(i as int)),
        decreases n - i,
    {
        let c = lower_char(s.get_char(i));
        push_char(&mut r, c);
        i = i + 1;
        assert(lowered(s@.take(i as int)) =~= lowered(s@.take(i - 1)).push(c));
    }
    assert(s@.take(n as int) =~= s@);
    r
}

/// The decimal digit `d` (`0 <= d < 10`).
pub open spec fn digit(d: int) -> char {
    (('0' as int) + d) as char
}

/// The decimal form of `n`, as `usize`'s `Display` writes it.
pub open spec fn decimal(n: nat) -> Seq<char>
    decreases n,
{
    if n < 10 {
        seq![digit(n as int)]
    } else {
        decimal(n / 10).push(digit((n % 10) as int))
    }
}

/// The character of one decimal digit.
fn digit_char(d: usize) -> (r: char)
    requires
        d < 10,
    ensures
        r == digit(d as int),
{
    let code: u32 = 48 + d as u32;
    char_from(code)
}

/// The decimal form of `n`.
pub fn decimal_string(n: usize) -> (r: String)
    ensures
        r@ == decimal(n as nat),
    decreases n,
{
    if n < 10 {
        let mut r = String::new();
        push_char(&mut r, digit_char(n));
        assert(r@ =~= seq![digit(n as int)]);
        r
    } else {
        let mut r = decimal_string(n / 10);
        push_char(&mut r, digit_char(n % 10));
        r
    }
}

/// The decimal form of a 64-bit `n`.
pub fn decimal_u64(n: u64) -> (r: String)
    ensures
        r@ == decimal(n as nat),
    decreases n,
{
    if n < 10 {
        let mut r = String::new();
        push_char(&mut r, digit_char(n as usize));
        assert(r@ =~= seq![digit(n as int)]);
        r
    } else {
        let mut r = decimal_u64(n / 10);
        push_char(&mut r, digit_char((n % 10) as usize));
        r
    }
}

/// The items joined by `sep`.
pub open spec fn joined(items: Seq<Seq<char>>, sep: Seq<char>) -> Seq<char>
    decreases items.len(),
{
    if items.len() == 0 {
        Seq::empty()
    } else if items.len() == 1 {
        items[0]
    } else {
        joined(items.drop_last(), sep) + sep + items.last()
    }
}

/// The views of a vector of strings.
pub open spec fn views(v: Seq<String>) -> Seq<Seq<char>> {
    v.map_values(|s: String| s@)
}

/// The items joined by `sep` (`[..].join(sep)`).
pub fn join(items: &Vec<String>, sep: &str) -> (r: String)
    ensures
        r@ == joined(views(items@), sep@),
{
    let mut r = String::new();
    let mut i: usize = 0;
    while i < items.len()
        invariant
            i <= items@.len(),
            r@ == joined(views(items@).take(i as int), sep@),
        decreases items.len() - i,
    {
        if i > 0 {
            r.append(sep);
        }
        r.append(items[i].as_str());
        i = i + 1;
        proof {
            let t = views(items@).take(i as int);
            assert(t.drop_last() =~= views(items@).take(i - 1));
            if i == 1 {
                assert(views(items@).take(0) =~= Seq::<Seq<char>>::empty());
            }
        }
    }
    assert(views(items@).take(items@.len() as int) =~= views(items@));
    r
}


/// `a` sorts strictly before `b`: the order `String`'s `Ord` gives (byte order of
/// UTF-8, which is the order of the characters' code points).
pub open spec fn before(a: Seq<char>, b: Seq<char>) -> bool
    decreases a.len(),
{
    if a.len() == 0 {
        b.len() > 0
    } else if b.len() == 0 {
        false
    } else if a[0] != b[0] {
        (a[0] as int) < (b[0] as int)
    } else {
        before(a.drop_first(), b.drop_first())
    }
}

/// No string sorts before itself, and of two distinct strings exactly one sorts
/// first.
pub proof fn lemma_before_total(a: Seq<char>, b: Seq<char>)
    ensures
        !before(a, a),
        a != b ==> (before(a, b) != before(b, a)),
        a == b ==> !before(a, b),
    decreases a.len(),
{
    if a.len() > 0 && b.len() > 0 {
        lemma_before_total(a.drop_first(), b.drop_first());
        lemma_before_total(a.drop_first(), a.drop_first());
        if a[0] == b[0] && a.drop_first() == b.drop_first() {
            assert(a =~= seq![a[0]] + a.drop_first());
            assert(b =~= seq![b[0]] + b.drop_first());
        }
    } else if a.len() > 0 {
        lemma_before_total(a.drop_first(), a.drop_first());
    } else if b.len() == 0 {
        assert(a =~= b);
    }
}

/// Sorting before is transitive.
pub proof fn lemma_before_transitive(a: Seq<char>, b: Seq<char>, c: Seq<char>)
    requires
        before(a, b),
        before(b, c),
    ensures
        before(a, c),
    decreases a.len(),
{
    if a.len() > 0 && b.len() > 0 && c.len() > 0 && a[0] == b[0] && b[0] == c[0] {
        lemma_before_transitive(a.drop_first(), b.drop_first(), c.drop_first());
    }
}

/// Equal prefixes leave the order to what follows them.
proof fn lemma_before_skip(a: Seq<char>, b: Seq<char>, i: int)
    requires
        0 <= i <= a.len(),
        i <= b.len(),
        forall|j: int| 0 <= j < i ==> a[j] == b[j],
    ensures
        before(a, b) == before(a.skip(i), b.skip(i)),
    decreases i,
{
    if i > 0 {
        lemma_before_skip(a.drop_first(), b.drop_first(), i - 1);
        assert(a.drop_first().skip(i - 1) =~= a.skip(i));
        assert(b.drop_first().skip(i - 1) =~= b.skip(i));
    } else {
        assert(a.skip(0) =~= a);
        assert(b.skip(0) =~= b);
    }
}

/// Whether `a` sorts strictly before `b`.
pub fn less(a: &str, b: &str) -> (r: bool)
    ensures
        r == before(a@, b@),
{
    let n = a.unicode_len();
    let m = b.unicode_len();
    let mut i: usize = 0;
    while i < n && i < m
        invariant
            n == a@.len(),
            m == b@.len(),
            i <= n,
            i <= m,
            forall|j: int| 0 <= j < i ==> a@[j] == b@[j],
        decreases n - i,
    {
        let x = a.get_char(i);
        let y = b.get_char(i);
        if x != y {
            proof {
                lemma_before_skip(a@, b@, i as int);
                assert(a@.skip(i as int)[0] == x);
                assert(b@.skip(i as int)[0] == y);
            }
            return (x as u32) < (y as u32);
        }
        i = i + 1;
    }
    proof {
        lemma_before_skip(a@, b@, i as int);
    }
    i == n && i < m
}

/// Every string of `s` sorts strictly before every later one.
pub open spec fn ascending(s: Seq<Seq<char>>) -> bool {
    forall|i: int, j: int| 0 <= i < j < s.len() ==> before(#[trigger] s[i], #[trigger] s[j])
}

/// `set` with `s` added, kept ascending and free of repeats.
pub fn insert_sorted(set: &mut Vec<String>, s: String)
    requires
        ascending(views(old(set)@)),
    ensures
        ascending(views(final(set)@)),
        views(final(set)@).to_set() == views(old(set)@).to_set().insert(s@),
{
    let ghost old_v = views(set@);
    let mut k: usize = 0;
    while k < set.len()
        invariant
            k <= set@.len(),
            views(set@) == old_v,
            ascending(old_v),
            forall|j: int| 0 <= j < k ==> before(#[trigger] old_v[j], s@),
        ensures
            k == set@.len() || !before(old_v[k as int], s@),
        decreases set@.len() - k,
    {
        if !less(set[k].as_str(), s.as_str()) {
            break;
        }
        k = k + 1;
    }
    if k < set.len() && same(set[k].as_str(), s.as_str()) {
        assert(views(set@).to_set() =~= old_v.to_set().insert(s@)) by {
            assert(old_v[k as int] == s@);
        }
        return;
    }
    proof {
        if k < old_v.len() {
            lemma_before_total(old_v[k as int], s@);
        }
    }
    let ghost sv = s@;
    set.insert(k, s);
    let ghost new_v = views(set@);
    assert(new_v =~= old_v.insert(k as int, sv));
    assert forall|i: int, j: int| 0 <= i < j < new_v.len() implies before(
        #[trigger] new_v[i],
        #[trigger] new_v[j],
    ) by {
        if i < k && j < k {
            assert(new_v[i] == old_v[i]);
            assert(new_v[j] == old_v[j]);
        } else if i < k && j == k {
        } else if i < k && j > k {
            assert(new_v[j] == old_v[j - 1]);
            if j - 1 > i {
            }
        } else if i == k {
            assert(new_v[j] == old_v[j - 1]);
            if j - 1 > k {
                assert(before(old_v[k as int], old_v[j - 1]));
                lemma_before_transitive(sv, old_v[k as int], old_v[j - 1]);
            }
        } else {
            assert(new_v[i] == old_v[i - 1]);
            assert(new_v[j] == old_v[j - 1]);
        }
    }
    assert(new_v.to_set() =~= old_v.to_set().insert(sv)) by {
        assert forall|x: Seq<char>| new_v.to_set().contains(x) implies old_v.to_set().insert(
            sv,
        ).contains(x) by {
            let i = choose|i: int| 0 <= i < new_v.len() && new_v[i] == x;
            if i < k {
                assert(old_v[i] == x);
            } else if i > k {
                assert(old_v[i - 1] == x);
            }
        }
        assert forall|x: Seq<char>| old_v.to_set().insert(sv).contains(x) implies new_v.to_set().contains(
            x,
        ) by {
            if x == sv {
                assert(new_v[k as int] == x);
            } else {
                let i = choose|i: int| 0 <= i < old_v.len() && old_v[i] == x;
                if i < k {
                    assert(new_v[i] == x);
                } else {
                    assert(new_v[i + 1] == x);
                }
            }
        }
    }
}


/// Lower-casing changes only `A`–`Z`, into `a`–`z`: it is idempotent, and keeps
/// white space and every other character what they were.
proof fn lemma_ascii_lower(c: char)
    ensures
        ascii_lower(ascii_lower(c)) == ascii_lower(c),
        is_space(ascii_lower(c)) == is_space(c),
        (ascii_lower(c) == ';') == (c == ';'),
{
    if 'A' <= c <= 'Z' {
        assert('a' <= ascii_lower(c) <= 'z');
    }
}

/// What comes before the first `c` holds no `c`.
proof fn lemma_before_first_free(s: Seq<char>, c: char)
    ensures
        !before_first(s, c).contains(c),
        before_first(s, c).len() <= s.len(),
        forall|k: int| 0 <= k < before_first(s, c).len() ==> before_first(s, c)[k] == s[k],
    decreases s.len(),
{
    if s.len() > 0 && s[0] != c {
        lemma_before_first_free(s.drop_first(), c);
        let rest = before_first(s.drop_first(), c);
        assert(before_first(s, c) == seq![s[0]] + rest);
        assert forall|k: int| 0 <= k < before_first(s, c).len() implies before_first(s, c)[k] == s[k] by {
            if k > 0 {
                assert(before_first(s, c)[k] == rest[k - 1]);
                assert(s.drop_first()[k - 1] == s[k]);
            } else {
                assert((seq![s[0]] + rest)[0] == s[0]);
            }
        }
        if before_first(s, c).contains(c) {
            let k = choose|k: int| 0 <= k < before_first(s, c).len() && before_first(s, c)[k] == c;
            if k > 0 {
                assert(rest[k - 1] == c);
            }
        }
    }
}

/// The leading white space of `s`: how far it reaches, and that it stops at a
/// character that is not white space.
proof fn lemma_leading_bounds(s: Seq<char>)
    ensures
        0 <= leading_space(s) <= s.len(),
        forall|j: int| 0 <= j < leading_space(s) ==> is_space(s[j]),
        leading_space(s) < s.len() ==> !is_space(s[leading_space(s)]),
    decreases s.len(),
{
    if s.len() > 0 && is_space(s[0]) {
        lemma_leading_bounds(s.drop_first());
        assert forall|j: int| 0 <= j < leading_space(s) implies is_space(s[j]) by {
            if j > 0 {
                assert(s[j] == s.drop_first()[j - 1]);
            }
        }
    }
}

/// The trailing white space of `s`: how far it reaches from the end, and that
/// it stops at a character that is not white space.
proof fn lemma_trailing_bounds(s: Seq<char>)
    ensures
        0 <= trailing_space(s) <= s.len(),
        forall|j: int| s.len() - trailing_space(s) <= j < s.len() ==> is_space(s[j]),
        trailing_space(s) < s.len() ==> !is_space(s[s.len() - trailing_space(s) - 1]),
    decreases s.len(),
{
    if s.len() > 0 && is_space(s.last()) {
        lemma_trailing_bounds(s.drop_last());
        assert forall|j: int| s.len() - trailing_space(s) <= j < s.len() implies is_space(s[j]) by {
            if j < s.len() - 1 {
                assert(s[j] == s.drop_last()[j]);
            }
        }
        if trailing_space(s) < s.len() {
            assert(s[s.len() - trailing_space(s) - 1] == s.drop_last()[s.drop_last().len() - trailing_space(s.drop_last()) - 1]);
        }
    }
}

/// Trimmed text neither begins nor ends with white space, and is a stretch of
/// the text it was trimmed from.
proof fn lemma_trimmed_ends(s: Seq<char>) -> (a: int)
    ensures
        trimmed(s).len() > 0 ==> !is_space(trimmed(s)[0]) && !is_space(trimmed(s).last()),
        0 <= a && a + trimmed(s).len() <= s.len(),
        forall|k: int| 0 <= k < trimmed(s).len() ==> #[trigger] trimmed(s)[k] == s[a + k],
{
    lemma_leading_bounds(s);
    lemma_trailing_bounds(s);
    let ls = leading_space(s);
    let ts = trailing_space(s);
    if ls == s.len() {
        0
    } else {
        assert(!is_space(s[ls]));
        assert(ls < s.len() - ts) by {
            if ls >= s.len() - ts {
                assert(is_space(s[ls]));
            }
        }
        assert(forall|k: int| 0 <= k < trimmed(s).len() ==> #[trigger] trimmed(s)[k] == s[ls + k]);
        ls
    }
}

/// Taking the bare form of a bare media type changes nothing: `bare` is a fixed
/// point of itself.
pub proof fn lemma_bare_idempotent(m: Seq<char>)
    ensures
        lowered(trimmed(before_first(
            lowered(trimmed(before_first(m, ';'))),
            ';',
        ))) == lowered(trimmed(before_first(m, ';'))),
{
    let b = before_first(m, ';');
    let t = trimmed(b);
    let l = lowered(t);
    lemma_before_first_free(m, ';');
    let a = lemma_trimmed_ends(b);
    assert forall|k: int| 0 <= k < l.len() implies l[k] != ';' by {
        lemma_ascii_lower(t[k]);
        assert(t[k] == b[a + k]);
        if t[k] == ';' {
            assert(b.contains(';'));
        }
    }
    lemma_before_first(l, ';', l.len() as int);
    assert(l.subrange(0, l.len() as int) =~= l);
    if l.len() > 0 {
        lemma_ascii_lower(t[0]);
        lemma_ascii_lower(t.last());
        assert(l[0] == ascii_lower(t[0]));
        assert(l[l.len() - 1] == ascii_lower(t[t.len() - 1]));
        lemma_leading_space(l, 0);
        lemma_trailing_space(l, 0);
        assert(trimmed(l) =~= l);
    } else {
        assert(trimmed(l) =~= l);
    }
    assert forall|k: int| 0 <= k < l.len() implies #[trigger] lowered(l)[k] == l[k] by {
        lemma_ascii_lower(t[k]);
    }
    assert(lowered(l) =~= l);
}

} // verus!
