//! The report: every finding at once, one line each, endpoint id first — so a
//! failure is a checklist, not the first miss.
use crate::checks::{all_checks, check_label, checks_where, Check, Checks};
use crate::fixture::{fixture_text, Fixture};
use crate::model::{verb_label, Verb};
use crate::text::{append, decimal, decimal_string, join, joined, owned, same, views};
use vstd::prelude::*;

verus! {

/// One violation of one check by one endpoint.
#[derive(Clone, Debug, PartialEq, Eq)]
pub struct Finding {
    /// The endpoint's description id.
    pub endpoint: String,
    /// The action's verb, when the finding is about one action rather than the
    /// whole description.
    pub verb: Option<Verb>,
    /// The check that found it.
    pub check: Check,
    /// What is wrong, and how to fix or opt out where that is not obvious.
    pub detail: String,
}

/// An action excluded from the invoking checks, with the reason the module gave.
#[derive(Clone, Debug, PartialEq, Eq)]
pub struct OptedOut {
    /// The endpoint's description id.
    pub endpoint: String,
    /// The verb opted out, or every verb.
    pub verb: Option<Verb>,
    /// Why — printed in the report.
    pub reason: String,
}

/// One check waived for one endpoint, with the reason the module gave.
#[derive(Clone, Debug, PartialEq, Eq)]
pub struct OptedOutCheck {
    /// The endpoint's description id.
    pub endpoint: String,
    /// The check waived.
    pub check: Check,
    /// Why — printed in the report.
    pub reason: String,
}

/// One action a check could not observe, with the reason.
#[derive(Clone, Debug, PartialEq, Eq)]
pub struct Unprobed {
    /// The endpoint's description id.
    pub endpoint: String,
    /// The action's verb.
    pub verb: Verb,
    /// The check that could not observe it.
    pub check: Check,
    /// Why.
    pub reason: String,
}

/// One face the walk actually resolved: positive evidence that the action was
/// reached and served something.
#[derive(Clone, Debug, PartialEq, Eq)]
#[non_exhaustive]
pub struct Probed {
    /// The endpoint's description id.
    pub endpoint: String,
    /// The action's verb.
    pub verb: Verb,
    /// The bare media type served.
    pub face: String,
    /// How many triples the face parsed to (RDF faces the graph checks read).
    pub triples: usize,
    /// How many bytes were served.
    pub bytes: usize,
    /// Whether the graph checks parsed the face (so `triples` is meaningful).
    pub parsed: bool,
}

/// What a module declared when it configured the suite, echoed in the report.
#[derive(Clone, Debug)]
pub struct Declarations {
    /// The actions opted out of the invoking checks, with reasons.
    pub opted_out: Vec<OptedOut>,
    /// The checks waived per endpoint, with reasons.
    pub opted_out_checks: Vec<OptedOutCheck>,
    /// The endpoints declared pure.
    pub pure: Vec<String>,
    /// The endpoints declared cacheable.
    pub cacheable: Vec<String>,
    /// The endpoints declared live.
    pub live: Vec<String>,
    /// The namespaces registered as the module's own.
    pub namespaces: Vec<String>,
    /// The fixtures supplied.
    pub fixtures: Vec<Fixture>,
}

/// What one run of the suite found.
#[derive(Clone, Debug)]
pub struct Report {
    /// Every finding, in walk order.
    pub findings: Vec<Finding>,
    /// How many descriptions were walked (distinct description ids).
    pub endpoints: usize,
    /// How many actions were examined: one per bound entry per verb.
    pub actions: usize,
    /// The checks that ran.
    pub checks: Checks,
    /// What the module declared to the suite.
    pub declared: Box<Declarations>,
    /// The actions a check could not observe, with reasons.
    pub unprobed: Vec<Unprobed>,
    /// Every face the walk actually resolved.
    pub probed: Vec<Probed>,
    /// The description ids the walk reached, in walk order.
    pub walked: Vec<String>,
}

// ----- the report's text, section by section --------------------------------

/// The text of `items`, each rendered by `line`, one after another.
pub open spec fn lines_of<A>(items: Seq<A>, line: spec_fn(A) -> Seq<char>) -> Seq<char>
    decreases items.len(),
{
    if items.len() == 0 {
        Seq::empty()
    } else {
        lines_of(items.drop_last(), line) + line(items.last())
    }
}

proof fn lemma_lines_step<A>(items: Seq<A>, line: spec_fn(A) -> Seq<char>, i: int)
    requires
        0 <= i < items.len(),
    ensures
        lines_of(items.take(i + 1), line) == lines_of(items.take(i), line) + line(items[i]),
{
    assert(items.take(i + 1).drop_last() =~= items.take(i));
}

proof fn lemma_lines_all<A>(items: Seq<A>, line: spec_fn(A) -> Seq<char>)
    ensures
        lines_of(items.take(items.len() as int), line) == lines_of(items, line),
{
    assert(items.take(items.len() as int) =~= items);
}

/// `"<verb>: "` for an action's finding, nothing for a description's.
pub open spec fn verb_part(verb: Option<Verb>) -> Seq<char> {
    match verb {
        Some(v) => verb_label(v) + ": "@,
        None => Seq::empty(),
    }
}

/// One report line: `<endpoint>  <CHECK>  [<verb>: ]<detail>`.
pub open spec fn finding_text(f: Finding) -> Seq<char> {
    f.endpoint@ + "  "@ + check_label(f.check) + "  "@ + verb_part(f.verb) + f.detail@
}

/// Whether some waiver takes `check` off the endpoint `id`.
pub open spec fn waived(waivers: Seq<OptedOutCheck>, id: Seq<char>, check: Check) -> bool {
    exists|k: int| 0 <= k < waivers.len() && #[trigger] waivers[k].endpoint@ == id && waivers[k].check
        == check
}

/// How many of the walked ids a waiver takes `check` off.
pub open spec fn waived_count(walked: Seq<String>, waivers: Seq<OptedOutCheck>, check: Check) -> nat
    decreases walked.len(),
{
    if walked.len() == 0 {
        0
    } else {
        waived_count(walked.drop_last(), waivers, check) + if waived(
            waivers,
            walked.last()@,
            check,
        ) {
            1nat
        } else {
            0nat
        }
    }
}

/// A check's label on the `checked:` line: starred when it was waived on some
/// walked endpoint.
pub open spec fn checked_label(r: Report, c: Check) -> Seq<char> {
    if waived_count(r.walked@, r.declared.opted_out_checks@, c) > 0 {
        check_label(c) + "*"@
    } else {
        check_label(c)
    }
}

/// The line under `checked:` that says where a starred check did not run.
pub open spec fn star_text(r: Report, c: Check) -> Seq<char> {
    let waived = waived_count(r.walked@, r.declared.opted_out_checks@, c);
    if waived > 0 {
        "* "@ + check_label(c) + " ran on "@ + decimal((r.walked@.len() - waived) as nat)
            + " of "@ + decimal(r.walked@.len()) + " endpoint(s); waived on the rest (see `opted out:`)\n"@
    } else {
        Seq::empty()
    }
}

/// How many distinct strings `s` holds.
pub open spec fn distinct_count(s: Seq<Seq<char>>) -> nat
    decreases s.len(),
{
    if s.len() == 0 {
        0
    } else {
        distinct_count(s.drop_last()) + if s.drop_last().contains(s.last()) {
            0nat
        } else {
            1nat
        }
    }
}

/// The endpoints of the probed faces, in order.
pub open spec fn probed_endpoints(p: Seq<Probed>) -> Seq<Seq<char>> {
    p.map_values(|x: Probed| x.endpoint@)
}

/// One `probed:` line.
pub open spec fn probed_text(p: Probed) -> Seq<char> {
    "probed: "@ + p.endpoint@ + " "@ + verb_label(p.verb) + " `"@ + p.face@ + "`: "@ + if p.parsed {
        decimal(p.triples as nat) + " triple(s)"@ + if p.triples == 0 {
            " — nothing was checked"@
        } else {
            Seq::empty()
        }
    } else {
        decimal(p.bytes as nat) + " byte(s)"@
    } + "\n"@
}

/// The line a walk that resolved nothing prints in place of the `probed` section.
pub open spec fn probed_nothing() -> Seq<char> {
    "probed: nothing — no action of the walk was resolved, so no face was observed\n"@
}

/// The `probed` section.
pub open spec fn probed_section(p: Seq<Probed>) -> Seq<char> {
    if p.len() == 0 {
        probed_nothing()
    } else {
        "probed "@ + decimal(p.len()) + " face(s) across "@ + decimal(
            distinct_count(probed_endpoints(p)),
        ) + " endpoint(s)\n"@ + lines_of(p, |x: Probed| probed_text(x))
    }
}

/// One `opted out:` line for an opted-out action.
pub open spec fn opted_out_text(o: OptedOut) -> Seq<char> {
    "opted out: "@ + o.endpoint@ + match o.verb {
        Some(v) => " "@ + verb_label(v),
        None => Seq::empty(),
    } + ": "@ + o.reason@ + "\n"@
}

/// Whether two waivers share their check and reason.
pub open spec fn same_waiver(a: OptedOutCheck, b: OptedOutCheck) -> bool {
    a.check == b.check && a.reason@ == b.reason@
}

/// The ids of the waivers of `w` sharing `o`'s check and reason, in order.
pub open spec fn grouped_ids(w: Seq<OptedOutCheck>, o: OptedOutCheck) -> Seq<Seq<char>>
    decreases w.len(),
{
    if w.len() == 0 {
        Seq::empty()
    } else if same_waiver(w.last(), o) {
        grouped_ids(w.drop_last(), o).push(w.last().endpoint@)
    } else {
        grouped_ids(w.drop_last(), o)
    }
}

/// Whether the waiver at `k` is the first with its check and reason.
pub open spec fn first_of_group(w: Seq<OptedOutCheck>, k: int) -> bool {
    forall|j: int| 0 <= j < k ==> !same_waiver(#[trigger] w[j], w[k])
}

/// The grouped waiver lines of the first `n` waivers of `w`: one line per
/// `(check, reason)`, listing every id that shares it.
pub open spec fn grouped_text(w: Seq<OptedOutCheck>, n: int) -> Seq<char>
    decreases n,
{
    if n <= 0 {
        Seq::empty()
    } else {
        grouped_text(w, n - 1) + if first_of_group(w, n - 1) {
            "opted out: "@ + joined(grouped_ids(w, w[n - 1]), " "@) + " "@ + check_label(
                w[n - 1].check,
            ) + ": "@ + w[n - 1].reason@ + "\n"@
        } else {
            Seq::empty()
        }
    }
}

/// `<head><items joined by spaces>` and a newline, or nothing for no items.
pub open spec fn list_text(head: Seq<char>, items: Seq<String>) -> Seq<char> {
    if items.len() == 0 {
        Seq::empty()
    } else {
        head + joined(views(items), " "@) + "\n"@
    }
}

/// One `unprobed:` line.
pub open spec fn unprobed_text(u: Unprobed) -> Seq<char> {
    "unprobed: "@ + u.endpoint@ + " "@ + verb_label(u.verb) + " "@ + check_label(u.check) + ": "@
        + u.reason@ + "\n"@
}

/// The labels of `cs` as the `checked:` line prints them.
pub open spec fn checked_labels(r: Report, cs: Seq<Check>) -> Seq<Seq<char>> {
    cs.map_values(|c: Check| checked_label(r, c))
}

/// The labels of `cs`.
pub open spec fn plain_labels(cs: Seq<Check>) -> Seq<Seq<char>> {
    cs.map_values(|c: Check| check_label(c))
}

/// The findings, one line each.
pub open spec fn findings_block(fs: Seq<Finding>) -> Seq<char> {
    lines_of(fs, |f: Finding| finding_text(f) + "\n"@)
}

/// The lines under `checked:` for every starred check of `cs`.
pub open spec fn stars_block(r: Report, cs: Seq<Check>) -> Seq<char> {
    lines_of(cs, |c: Check| star_text(r, c))
}

/// The `opted out:` lines of the opted-out actions.
pub open spec fn opted_out_block(os: Seq<OptedOut>) -> Seq<char> {
    lines_of(os, |o: OptedOut| opted_out_text(o))
}

/// The `fixture:` lines.
pub open spec fn fixtures_block(fs: Seq<Fixture>) -> Seq<char> {
    lines_of(fs, |f: Fixture| "fixture: "@ + fixture_text(f) + "\n"@)
}

/// The `unprobed:` lines.
pub open spec fn unprobed_block(us: Seq<Unprobed>) -> Seq<char> {
    lines_of(us, |u: Unprobed| unprobed_text(u))
}

/// The `skipped:` line, or nothing when every check ran.
pub open spec fn skipped_text(skipped: Seq<Check>) -> Seq<char> {
    if skipped.len() == 0 {
        Seq::empty()
    } else {
        "skipped: "@ + joined(plain_labels(skipped), " "@) + "\n"@
    }
}

/// The summary line.
pub open spec fn summary_text(r: Report) -> Seq<char> {
    decimal(r.findings@.len()) + " finding(s) across "@ + decimal(r.endpoints as nat)
        + " endpoint(s), "@ + decimal(r.actions as nat) + " action(s)\n"@
}

/// The `checked:` line, the lines for its starred checks, and the `skipped:` line.
pub open spec fn coverage_text(r: Report) -> Seq<char> {
    let ran = checks_where(all_checks(), r.checks@, true);
    let skipped = checks_where(all_checks(), r.checks@, false);
    "checked: "@ + joined(checked_labels(r, ran), " "@) + "\n"@ + stars_block(r, ran) + skipped_text(
        skipped,
    )
}

/// What the module declared: opt-outs, waivers, declarations, fixtures.
pub open spec fn declared_text(d: Declarations) -> Seq<char> {
    opted_out_block(d.opted_out@) + grouped_text(d.opted_out_checks@, d.opted_out_checks@.len() as int)
        + list_text("declared pure: "@, d.pure@) + list_text("declared cacheable: "@, d.cacheable@)
        + list_text("declared live: "@, d.live@) + list_text("module namespaces: "@, d.namespaces@)
        + fixtures_block(d.fixtures@)
}

/// The whole report, as `Display` would print it.
pub open spec fn report_text(r: Report) -> Seq<char> {
    findings_block(r.findings@) + summary_text(r) + coverage_text(r) + probed_section(r.probed@)
        + declared_text(*r.declared) + unprobed_block(r.unprobed@)
}

/// A finding as plain values: endpoint, verb, check, detail.
pub type FindingView = (Seq<char>, Option<Verb>, Check, Seq<char>);

/// A finding as plain values.
pub open spec fn fview(f: Finding) -> FindingView {
    (f.endpoint@, f.verb, f.check, f.detail@)
}

/// Findings as plain values.
pub open spec fn fviews(fs: Seq<Finding>) -> Seq<FindingView> {
    fs.map_values(|f: Finding| fview(f))
}

/// Records one finding.
pub fn push_finding(
    fs: &mut Vec<Finding>,
    endpoint: &str,
    verb: Option<Verb>,
    check: Check,
    detail: String,
)
    ensures
        fviews(final(fs)@) == fviews(old(fs)@).push((endpoint@, verb, check, detail@)),
{
    let ghost before = fviews(fs@);
    fs.push(Finding { endpoint: owned(endpoint), verb, check, detail });
    assert(fviews(fs@) =~= before.push((endpoint@, verb, check, detail@)));
}

/// An unprobed line as plain values: endpoint, verb, check, reason.
pub type UnprobedView = (Seq<char>, Verb, Check, Seq<char>);

/// An unprobed line as plain values.
pub open spec fn uview(u: Unprobed) -> UnprobedView {
    (u.endpoint@, u.verb, u.check, u.reason@)
}

/// Unprobed lines as plain values.
pub open spec fn uviews(us: Seq<Unprobed>) -> Seq<UnprobedView> {
    us.map_values(|u: Unprobed| uview(u))
}

/// Records one action a check could not observe.
pub fn push_unprobed(us: &mut Vec<Unprobed>, endpoint: &str, verb: Verb, check: Check, reason: String)
    ensures
        uviews(final(us)@) == uviews(old(us)@).push((endpoint@, verb, check, reason@)),
{
    let ghost before = uviews(us@);
    us.push(Unprobed { endpoint: owned(endpoint), verb, check, reason });
    assert(uviews(us@) =~= before.push((endpoint@, verb, check, reason@)));
}

/// A probed face as plain values: endpoint, verb, face, triples, bytes, parsed.
pub type ProbedView = (Seq<char>, Verb, Seq<char>, usize, usize, bool);

/// A probed face as plain values.
pub open spec fn pview(p: Probed) -> ProbedView {
    (p.endpoint@, p.verb, p.face@, p.triples, p.bytes, p.parsed)
}

/// Probed faces as plain values.
pub open spec fn pviews(ps: Seq<Probed>) -> Seq<ProbedView> {
    ps.map_values(|p: Probed| pview(p))
}

/// The findings of `fs` that `check` made.
pub open spec fn findings_of(fs: Seq<Finding>, check: Check) -> Seq<Finding> {
    fs.filter(|f: Finding| f.check == check)
}

/// The findings of `fs` against the endpoint `id`.
pub open spec fn findings_against(fs: Seq<Finding>, id: Seq<char>) -> Seq<Finding> {
    fs.filter(|f: Finding| f.endpoint@ == id)
}

impl Finding {
    /// The report line: `<endpoint>  <CHECK>  [<verb>: ]<detail>`.
    pub fn text(&self) -> (r: String)
        ensures
            r@ == finding_text(*self),
    {
        let mut s = owned(self.endpoint.as_str());
        append(&mut s, "  ");
        append(&mut s, self.check.label());
        append(&mut s, "  ");
        if let Some(v) = self.verb {
            append(&mut s, v.label());
            append(&mut s, ": ");
        }
        append(&mut s, self.detail.as_str());
        s
    }
}

/// Appends `items` joined by spaces under `head`, and a newline; nothing for no
/// items.
fn append_list(s: &mut String, head: &str, items: &Vec<String>)
    ensures
        final(s)@ == old(s)@ + list_text(head@, items@),
{
    if items.len() > 0 {
        append(s, head);
        let j = join(items, " ");
        append(s, j.as_str());
        append(s, "\n");
    }
}

/// The labels of `checks`, each rendered by `label`.
fn labels(checks: &Vec<Check>, r: &Report, starred: bool) -> (v: Vec<String>)
    ensures
        starred ==> views(v@) == checked_labels(*r, checks@),
        !starred ==> views(v@) == plain_labels(checks@),
{
    let mut v: Vec<String> = Vec::new();
    let mut i: usize = 0;
    while i < checks.len()
        invariant
            i <= checks@.len(),
            views(v@) == checks@.take(i as int).map_values(
                |c: Check|
                    if starred {
                        checked_label(*r, c)
                    } else {
                        check_label(c)
                    },
            ),
        decreases checks@.len() - i,
    {
        let c = checks[i];
        let mut l = owned(c.label());
        if starred && r.waived_on(c) > 0 {
            append(&mut l, "*");
        }
        assert(l@ == (if starred {
            checked_label(*r, c)
        } else {
            check_label(c)
        }));
        let ghost before_v = views(v@);
        v.push(l);
        assert(views(v@) =~= before_v.push(l@));
        i = i + 1;
        proof {
            assert(views(v@) =~= checks@.take(i as int).map_values(
                |c: Check|
                    if starred {
                        checked_label(*r, c)
                    } else {
                        check_label(c)
                    },
            ));
        }
    }
    assert(checks@.take(checks@.len() as int) =~= checks@);
    v
}

impl Report {
    /// `true` when no check found anything.
    pub fn is_clean(&self) -> (r: bool)
        ensures
            r == (self.findings@.len() == 0),
    {
        self.findings.len() == 0
    }

    /// The findings of one check, in order.
    pub fn of(&self, check: Check) -> (r: Vec<&Finding>)
        ensures
            r@.map_values(|f: &Finding| *f) == findings_of(self.findings@, check),
    {
        let ghost pred = |f: Finding| f.check == check;
        let mut r: Vec<&Finding> = Vec::new();
        let mut i: usize = 0;
        while i < self.findings.len()
            invariant
                i <= self.findings@.len(),
                pred == (|f: Finding| f.check == check),
                r@.map_values(|f: &Finding| *f) == self.findings@.take(i as int).filter(pred),
            decreases self.findings@.len() - i,
        {
            let f = &self.findings[i];
            proof {
                reveal(Seq::filter);
                assert(self.findings@.take(i + 1).drop_last() =~= self.findings@.take(i as int));
            }
            if f.check == check {
                r.push(f);
            }
            i = i + 1;
            proof {
                assert(r@.map_values(|f: &Finding| *f) =~= self.findings@.take(i as int).filter(
                    pred,
                ));
            }
        }
        assert(self.findings@.take(self.findings@.len() as int) =~= self.findings@);
        r
    }

    /// The findings against one endpoint id, in order.
    pub fn against(&self, endpoint: &str) -> (r: Vec<&Finding>)
        ensures
            r@.map_values(|f: &Finding| *f) == findings_against(self.findings@, endpoint@),
    {
        let ghost pred = |f: Finding| f.endpoint@ == endpoint@;
        let mut r: Vec<&Finding> = Vec::new();
        let mut i: usize = 0;
        while i < self.findings.len()
            invariant
                i <= self.findings@.len(),
                pred == (|f: Finding| f.endpoint@ == endpoint@),
                r@.map_values(|f: &Finding| *f) == self.findings@.take(i as int).filter(pred),
            decreases self.findings@.len() - i,
        {
            let f = &self.findings[i];
            proof {
                reveal(Seq::filter);
                assert(self.findings@.take(i + 1).drop_last() =~= self.findings@.take(i as int));
            }
            if same(f.endpoint.as_str(), endpoint) {
                r.push(f);
            }
            i = i + 1;
            proof {
                assert(r@.map_values(|f: &Finding| *f) =~= self.findings@.take(i as int).filter(
                    pred,
                ));
            }
        }
        assert(self.findings@.take(self.findings@.len() as int) =~= self.findings@);
        r
    }

    /// `Ok(self)` when clean, `Err(self)` otherwise.
    pub fn into_result(self) -> (r: Result<Report, Report>)
        ensures
            self.findings@.len() == 0 ==> r == Ok::<Report, Report>(self),
            self.findings@.len() != 0 ==> r == Err::<Report, Report>(self),
    {
        if self.is_clean() {
            Ok(self)
        } else {
            Err(self)
        }
    }

    /// How many walked endpoints a waiver takes `check` off.
    pub fn waived_on(&self, check: Check) -> (n: usize)
        ensures
            n == waived_count(self.walked@, self.declared.opted_out_checks@, check),
    {
        let w = &self.declared.opted_out_checks;
        let mut n: usize = 0;
        let mut i: usize = 0;
        while i < self.walked.len()
            invariant
                i <= self.walked@.len(),
                w@ == self.declared.opted_out_checks@,
                n == waived_count(self.walked@.take(i as int), w@, check),
                n <= i,
            decreases self.walked@.len() - i,
        {
            let id = self.walked[i].as_str();
            let mut found = false;
            let mut k: usize = 0;
            while k < w.len()
                invariant
                    k <= w@.len(),
                    found == exists|j: int| 0 <= j < k && #[trigger] w@[j].endpoint@ == id@
                        && w@[j].check == check,
                decreases w@.len() - k,
            {
                if w[k].check == check && same(w[k].endpoint.as_str(), id) {
                    found = true;
                }
                k = k + 1;
            }
            proof {
                assert(self.walked@.take(i + 1).drop_last() =~= self.walked@.take(i as int));
            }
            if found {
                n = n + 1;
            }
            i = i + 1;
        }
        assert(self.walked@.take(self.walked@.len() as int) =~= self.walked@);
        n
    }
}


/// Appends the findings, one line each.
fn append_findings(s: &mut String, fs: &Vec<Finding>)
    ensures
        final(s)@ == old(s)@ + findings_block(fs@),
{
    let ghost start = s@;
    let mut i: usize = 0;
    while i < fs.len()
        invariant
            i <= fs@.len(),
            s@ == start + findings_block(fs@.take(i as int)),
        decreases fs@.len() - i,
    {
        let line = fs[i].text();
        append(s, line.as_str());
        append(s, "\n");
        proof {
            lemma_lines_step(fs@, |f: Finding| finding_text(f) + "\n"@, i as int);
        }
        i = i + 1;
    }
    proof {
        lemma_lines_all(fs@, |f: Finding| finding_text(f) + "\n"@);
    }
}

/// The decimal form of a count, appended.
fn append_count(s: &mut String, n: usize)
    ensures
        final(s)@ == old(s)@ + decimal(n as nat),
{
    let d = decimal_string(n);
    append(s, d.as_str());
}

/// How many distinct strings `items` holds.
fn count_distinct(items: &Vec<&str>) -> (n: usize)
    ensures
        n == distinct_count(items@.map_values(|x: &str| x@)),
{
    let ghost v = items@.map_values(|x: &str| x@);
    let mut n: usize = 0;
    let mut i: usize = 0;
    while i < items.len()
        invariant
            i <= items@.len(),
            v == items@.map_values(|x: &str| x@),
            n == distinct_count(v.take(i as int)),
            n <= i,
        decreases items@.len() - i,
    {
        let mut seen = false;
        let mut k: usize = 0;
        while k < i
            invariant
                k <= i < items@.len(),
                v == items@.map_values(|x: &str| x@),
                seen == exists|j: int| 0 <= j < k && v[j] == v[i as int],
            decreases i - k,
        {
            if same(items[k], items[i]) {
                assert(v[k as int] == v[i as int]);
                seen = true;
            }
            k = k + 1;
        }
        proof {
            let t = v.take(i + 1);
            assert(t.drop_last() =~= v.take(i as int));
            assert(t.last() == v[i as int]);
            if seen {
                let j = choose|j: int| 0 <= j < i && v[j] == v[i as int];
                assert(t.drop_last()[j] == v[i as int]);
            } else {
                assert(!t.drop_last().contains(t.last()));
            }
        }
        if !seen {
            n = n + 1;
        }
        i = i + 1;
    }
    assert(v.take(items@.len() as int) =~= v);
    n
}

impl Probed {
    /// One `probed:` line.
    pub fn text(&self) -> (r: String)
        ensures
            r@ == probed_text(*self),
    {
        let mut s = owned("probed: ");
        append(&mut s, self.endpoint.as_str());
        append(&mut s, " ");
        append(&mut s, self.verb.label());
        append(&mut s, " `");
        append(&mut s, self.face.as_str());
        append(&mut s, "`: ");
        if self.parsed {
            append_count(&mut s, self.triples);
            append(&mut s, " triple(s)");
            if self.triples == 0 {
                append(&mut s, " — nothing was checked");
            }
        } else {
            append_count(&mut s, self.bytes);
            append(&mut s, " byte(s)");
        }
        append(&mut s, "\n");
        s
    }
}

/// Appends the `probed` section.
fn append_probed(s: &mut String, p: &Vec<Probed>)
    ensures
        final(s)@ == old(s)@ + probed_section(p@),
{
    if p.len() == 0 {
        append(s, "probed: nothing — no action of the walk was resolved, so no face was observed\n");
        return;
    }
    let mut eps: Vec<&str> = Vec::new();
    let mut i: usize = 0;
    while i < p.len()
        invariant
            i <= p@.len(),
            eps@.map_values(|x: &str| x@) == probed_endpoints(p@).take(i as int),
        decreases p@.len() - i,
    {
        let e = p[i].endpoint.as_str();
        assert(e@ == probed_endpoints(p@)[i as int]);
        let ghost before_eps = eps@;
        eps.push(e);
        proof {
            assert(eps@ =~= before_eps.push(e));
            assert(eps@.map_values(|x: &str| x@) =~= before_eps.map_values(|x: &str| x@).push(e@));
            assert(probed_endpoints(p@).take(i + 1) =~= probed_endpoints(p@).take(i as int).push(
                e@,
            ));
        }
        i = i + 1;
    }
    assert(probed_endpoints(p@).take(p@.len() as int) =~= probed_endpoints(p@));
    let distinct = count_distinct(&eps);
    append(s, "probed ");
    append_count(s, p.len());
    append(s, " face(s) across ");
    append_count(s, distinct);
    append(s, " endpoint(s)\n");
    let ghost start = s@;
    let mut i: usize = 0;
    while i < p.len()
        invariant
            i <= p@.len(),
            s@ == start + lines_of(p@.take(i as int), |x: Probed| probed_text(x)),
        decreases p@.len() - i,
    {
        let line = p[i].text();
        append(s, line.as_str());
        proof {
            lemma_lines_step(p@, |x: Probed| probed_text(x), i as int);
        }
        i = i + 1;
    }
    proof {
        lemma_lines_all(p@, |x: Probed| probed_text(x));
    }
}

/// Appends the `opted out:` lines of the opted-out actions.
fn append_opted_out(s: &mut String, os: &Vec<OptedOut>)
    ensures
        final(s)@ == old(s)@ + opted_out_block(os@),
{
    let ghost start = s@;
    let mut i: usize = 0;
    while i < os.len()
        invariant
            i <= os@.len(),
            s@ == start + opted_out_block(os@.take(i as int)),
        decreases os@.len() - i,
    {
        let o = &os[i];
        append(s, "opted out: ");
        append(s, o.endpoint.as_str());
        if let Some(v) = o.verb {
            append(s, " ");
            append(s, v.label());
        }
        append(s, ": ");
        append(s, o.reason.as_str());
        append(s, "\n");
        proof {
            lemma_lines_step(os@, |o: OptedOut| opted_out_text(o), i as int);
        }
        i = i + 1;
    }
    proof {
        lemma_lines_all(os@, |o: OptedOut| opted_out_text(o));
    }
}

/// Whether two waivers share their check and reason.
fn same_reason(a: &OptedOutCheck, b: &OptedOutCheck) -> (r: bool)
    ensures
        r == same_waiver(*a, *b),
{
    a.check == b.check && same(a.reason.as_str(), b.reason.as_str())
}

/// The ids of the waivers of `w` sharing `o`'s check and reason, in order.
fn group_ids(w: &Vec<OptedOutCheck>, o: &OptedOutCheck) -> (r: Vec<String>)
    ensures
        views(r@) == grouped_ids(w@, *o),
{
    let mut r: Vec<String> = Vec::new();
    let mut i: usize = 0;
    while i < w.len()
        invariant
            i <= w@.len(),
            views(r@) == grouped_ids(w@.take(i as int), *o),
        decreases w@.len() - i,
    {
        let ghost before_r = views(r@);
        if same_reason(&w[i], o) {
            r.push(w[i].endpoint.clone());
        }
        proof {
            assert(w@.take(i + 1).drop_last() =~= w@.take(i as int));
            assert(views(r@) =~= grouped_ids(w@.take(i + 1), *o));
        }
        i = i + 1;
    }
    assert(w@.take(w@.len() as int) =~= w@);
    r
}

/// Appends the grouped waiver lines.
fn append_grouped(s: &mut String, w: &Vec<OptedOutCheck>)
    ensures
        final(s)@ == old(s)@ + grouped_text(w@, w@.len() as int),
{
    let ghost start = s@;
    let mut n: usize = 0;
    while n < w.len()
        invariant
            n <= w@.len(),
            s@ == start + grouped_text(w@, n as int),
        decreases w@.len() - n,
    {
        let mut first = true;
        let mut j: usize = 0;
        while j < n
            invariant
                j <= n < w@.len(),
                first == forall|k: int| 0 <= k < j ==> !same_waiver(#[trigger] w@[k], w@[n as int]),
            decreases n - j,
        {
            if same_reason(&w[j], &w[n]) {
                first = false;
            }
            j = j + 1;
        }
        if first {
            let ids = group_ids(w, &w[n]);
            append(s, "opted out: ");
            let joined_ids = join(&ids, " ");
            append(s, joined_ids.as_str());
            append(s, " ");
            append(s, w[n].check.label());
            append(s, ": ");
            append(s, w[n].reason.as_str());
            append(s, "\n");
        }
        n = n + 1;
    }
}

/// Appends the `fixture:` lines.
fn append_fixtures(s: &mut String, fs: &Vec<Fixture>)
    ensures
        final(s)@ == old(s)@ + fixtures_block(fs@),
{
    let ghost start = s@;
    let mut i: usize = 0;
    while i < fs.len()
        invariant
            i <= fs@.len(),
            s@ == start + fixtures_block(fs@.take(i as int)),
        decreases fs@.len() - i,
    {
        append(s, "fixture: ");
        let t = fs[i].text();
        append(s, t.as_str());
        append(s, "\n");
        proof {
            lemma_lines_step(fs@, |f: Fixture| "fixture: "@ + fixture_text(f) + "\n"@, i as int);
        }
        i = i + 1;
    }
    proof {
        lemma_lines_all(fs@, |f: Fixture| "fixture: "@ + fixture_text(f) + "\n"@);
    }
}

/// Appends the `unprobed:` lines.
fn append_unprobed(s: &mut String, us: &Vec<Unprobed>)
    ensures
        final(s)@ == old(s)@ + unprobed_block(us@),
{
    let ghost start = s@;
    let mut i: usize = 0;
    while i < us.len()
        invariant
            i <= us@.len(),
            s@ == start + unprobed_block(us@.take(i as int)),
        decreases us@.len() - i,
    {
        let u = &us[i];
        append(s, "unprobed: ");
        append(s, u.endpoint.as_str());
        append(s, " ");
        append(s, u.verb.label());
        append(s, " ");
        append(s, u.check.label());
        append(s, ": ");
        append(s, u.reason.as_str());
        append(s, "\n");
        proof {
            lemma_lines_step(us@, |u: Unprobed| unprobed_text(u), i as int);
        }
        i = i + 1;
    }
    proof {
        lemma_lines_all(us@, |u: Unprobed| unprobed_text(u));
    }
}

impl Report {
    /// Appends the lines under `checked:` for every starred check of `ran`.
    fn append_stars(&self, s: &mut String, ran: &Vec<Check>)
        ensures
            final(s)@ == old(s)@ + stars_block(*self, ran@),
    {
        let ghost start = s@;
        let total = self.walked.len();
        let mut i: usize = 0;
        while i < ran.len()
            invariant
                i <= ran@.len(),
                total == self.walked@.len(),
                s@ == start + stars_block(*self, ran@.take(i as int)),
            decreases ran@.len() - i,
        {
            let c = ran[i];
            let line = self.star_line(c);
            append(s, line.as_str());
            proof {
                lemma_lines_step(ran@, |c: Check| star_text(*self, c), i as int);
            }
            i = i + 1;
        }
        proof {
            lemma_lines_all(ran@, |c: Check| star_text(*self, c));
        }
    }

    /// The line under `checked:` for a starred check, or nothing.
    fn star_line(&self, c: Check) -> (r: String)
        ensures
            r@ == star_text(*self, c),
    {
        let total = self.walked.len();
        let waived = self.waived_on(c);
        let mut s = String::new();
        if waived > 0 {
            proof {
                self.lemma_waived_bound(c, self.walked@);
            }
            append(&mut s, "* ");
            append(&mut s, c.label());
            append(&mut s, " ran on ");
            append_count(&mut s, total - waived);
            append(&mut s, " of ");
            append_count(&mut s, total);
            append(&mut s, " endpoint(s); waived on the rest (see `opted out:`)\n");
        }
        s
    }

    proof fn lemma_waived_bound(&self, c: Check, walked: Seq<String>)
        ensures
            waived_count(walked, self.declared.opted_out_checks@, c) <= walked.len(),
        decreases walked.len(),
    {
        if walked.len() > 0 {
            self.lemma_waived_bound(c, walked.drop_last());
        }
    }

    /// Appends the `checked:` line, its starred checks' lines and the `skipped:` line.
    fn append_coverage(&self, s: &mut String)
        ensures
            final(s)@ == old(s)@ + coverage_text(*self),
    {
        let ghost start = s@;
        let ran = self.checks.iter();
        let ran_labels = labels(&ran, self, true);
        append(s, "checked: ");
        let j = join(&ran_labels, " ");
        append(s, j.as_str());
        append(s, "\n");
        self.append_stars(s, &ran);
        let ghost mid = s@;
        let skipped = self.checks.skipped();
        if skipped.len() > 0 {
            let skipped_labels = labels(&skipped, self, false);
            append(s, "skipped: ");
            let j = join(&skipped_labels, " ");
            append(s, j.as_str());
            append(s, "\n");
        }
        assert(s@ == mid + skipped_text(skipped@));
    }

    /// The report as `Display` prints it: every finding, one line each, then the
    /// summary, the checks that ran (starred where waived on some endpoint) and
    /// those skipped, what was probed, and every declaration and gap.
    pub fn to_text(&self) -> (r: String)
        ensures
            r@ == report_text(*self),
    {
        let mut s = String::new();
        append_findings(&mut s, &self.findings);
        assert(s@ =~= findings_block(self.findings@));
        append_count(&mut s, self.findings.len());
        append(&mut s, " finding(s) across ");
        append_count(&mut s, self.endpoints);
        append(&mut s, " endpoint(s), ");
        append_count(&mut s, self.actions);
        append(&mut s, " action(s)\n");
        assert(s@ =~= findings_block(self.findings@) + summary_text(*self));
        self.append_coverage(&mut s);
        append_probed(&mut s, &self.probed);
        append_declared(&mut s, &self.declared);
        append_unprobed(&mut s, &self.unprobed);
        s
    }
}

/// Appends what the module declared.
fn append_declared(s: &mut String, d: &Declarations)
    ensures
        final(s)@ == old(s)@ + declared_text(*d),
{
    let ghost start = s@;
    append_opted_out(s, &d.opted_out);
    append_grouped(s, &d.opted_out_checks);
    append_list(s, "declared pure: ", &d.pure);
    append_list(s, "declared cacheable: ", &d.cacheable);
    append_list(s, "declared live: ", &d.live);
    append_list(s, "module namespaces: ", &d.namespaces);
    append_fixtures(s, &d.fixtures);
}

} // verus!
