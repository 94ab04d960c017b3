//! Module-supplied inputs for one action, and the report line that echoes them.
use crate::model::{verb_label, Verb};
use crate::pairs::{find, first_value, lookup, put, sorted_pairs};
use crate::text::{append, cat, debug_quoted, debug_string, decimal, decimal_string, owned};
use vstd::prelude::*;

verus! {

/// The longest fixture value a report line prints before cutting it.
pub const SHOWN: usize = 48;

/// A fixture value as one printable token: its `Debug` form, cut after
/// [`SHOWN`] characters with the true length stated.
pub open spec fn shown_text(value: Seq<char>) -> Seq<char> {
    let escaped = debug_quoted(value);
    if escaped.len() <= 48 {
        escaped
    } else {
        escaped.take(48) + "… ("@ + decimal(escaped.len()) + " chars)"@
    }
}

/// A fixture value as one printable token: escaped, and cut when long.
pub fn shown(value: &str) -> (r: String)
    ensures
        r@ == shown_text(value@),
{
    let escaped = debug_string(value);
    let len = escaped.as_str().unicode_len();
    if len <= SHOWN {
        return escaped;
    }
    let mut cut = owned(escaped.as_str().substring_char(0, SHOWN));
    append(&mut cut, "… (");
    let digits = decimal_string(len);
    append(&mut cut, digits.as_str());
    append(&mut cut, " chars)");
    cut
}

/// Module-supplied inputs for one action, for when the ArgSpecs cannot say what a
/// valid call looks like. Named arguments override the derived minimal ones;
/// bindings fill the entry's template variables. Both are kept sorted by name,
/// each name once.
#[derive(Clone, Debug)]
pub struct Fixture {
    /// The endpoint's description id.
    pub id: String,
    /// The verb of the action.
    pub verb: Verb,
    /// By-value arguments, by name.
    pub args: Vec<(String, String)>,
    /// Template-variable values, by variable.
    pub bindings: Vec<(String, String)>,
}

/// The `" name=value"` pieces of a list of pairs, as a report line prints them.
pub open spec fn pairs_text(pairs: Seq<(String, String)>) -> Seq<char>
    decreases pairs.len(),
{
    if pairs.len() == 0 {
        Seq::empty()
    } else {
        pairs_text(pairs.drop_last()) + " "@ + pairs.last().0@ + "="@ + shown_text(
            pairs.last().1@,
        )
    }
}

/// The report line for a fixture: `<id> <verb> <var>=<value>… <name>=<value>…`.
pub open spec fn fixture_text(f: Fixture) -> Seq<char> {
    f.id@ + " "@ + verb_label(f.verb) + pairs_text(f.bindings@) + pairs_text(f.args@)
}

/// Appends the `" name=value"` pieces of `pairs`.
fn append_pairs(s: &mut String, pairs: &Vec<(String, String)>)
    ensures
        final(s)@ == old(s)@ + pairs_text(pairs@),
{
    let ghost start = s@;
    let mut i: usize = 0;
    while i < pairs.len()
        invariant
            i <= pairs@.len(),
            s@ == start + pairs_text(pairs@.take(i as int)),
        decreases pairs@.len() - i,
    {
        append(s, " ");
        append(s, pairs[i].0.as_str());
        append(s, "=");
        let v = shown(pairs[i].1.as_str());
        append(s, v.as_str());
        i = i + 1;
        proof {
            assert(pairs@.take(i as int).drop_last() =~= pairs@.take(i - 1));
        }
    }
    assert(pairs@.take(pairs@.len() as int) =~= pairs@);
}

impl Fixture {
    /// A fixture for the action `(id, verb)`, where `id` is the endpoint's
    /// description id.
    pub fn new(id: &str, verb: Verb) -> (r: Fixture)
        ensures
            r.id@ == id@,
            r.verb == verb,
            r.args@.len() == 0,
            r.bindings@.len() == 0,
    {
        Fixture { id: owned(id), verb, args: Vec::new(), bindings: Vec::new() }
    }

    /// Whether the argument and binding lists are well-formed.
    pub open spec fn well_formed(self) -> bool {
        sorted_pairs(self.args@) && sorted_pairs(self.bindings@)
    }

    /// Supply (or override) one by-value argument.
    pub fn arg(self, name: &str, value: &str) -> (r: Fixture)
        requires
            self.well_formed(),
        ensures
            r.well_formed(),
            r.id == self.id,
            r.verb == self.verb,
            r.bindings == self.bindings,
            forall|n: Seq<char>|
                #![trigger lookup(r.args@, n)]
                lookup(r.args@, n) == if n == name@ {
                    Some(value@)
                } else {
                    lookup(self.args@, n)
                },
    {
        let mut f = self;
        put(&mut f.args, owned(name), owned(value));
        f
    }

    /// Supply the value of one template variable of the entry this endpoint is
    /// bound at (`urn:file:{path}` → `binding("path", …)`). Bindings are looked up
    /// per entry, not per action: the first fixture for the id that binds the
    /// variable wins, whatever its verb.
    pub fn binding(self, var: &str, value: &str) -> (r: Fixture)
        requires
            self.well_formed(),
        ensures
            r.well_formed(),
            r.id == self.id,
            r.verb == self.verb,
            r.args == self.args,
            forall|n: Seq<char>|
                #![trigger lookup(r.bindings@, n)]
                lookup(r.bindings@, n) == if n == var@ {
                    Some(value@)
                } else {
                    lookup(self.bindings@, n)
                },
    {
        let mut f = self;
        put(&mut f.bindings, owned(var), owned(value));
        f
    }

    /// The endpoint id this fixture is for.
    pub fn id(&self) -> (r: &str)
        ensures
            r@ == self.id@,
    {
        self.id.as_str()
    }

    /// The verb this fixture is for.
    pub fn verb(&self) -> (r: Verb)
        ensures
            r == self.verb,
    {
        self.verb
    }

    /// The value this fixture binds `var` to, if any.
    pub fn bound(&self, var: &str) -> (r: Option<&String>)
        ensures
            match r {
                Some(v) => first_value(self.bindings@, var@) == Some(v@),
                None => first_value(self.bindings@, var@) is None,
            },
    {
        find(&self.bindings, var)
    }

    /// The report line: `<id> <verb> <var>=<value>… <name>=<value>…`, bindings
    /// first, values escaped and cut after 48 characters with the true length
    /// stated.
    pub fn text(&self) -> (r: String)
        ensures
            r@ == fixture_text(*self),
    {
        let mut s = owned(self.id.as_str());
        append(&mut s, " ");
        append(&mut s, self.verb.label());
        append_pairs(&mut s, &self.bindings);
        append_pairs(&mut s, &self.args);
        s
    }
}

} // verus!
