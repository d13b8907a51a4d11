//! Cumulative ledger of recurring stuck points across daily reports.
//!
//! Each daily report's unclear points are classified into rules that are new
//! and rules seen before (by a normalized key), the new ones join the
//! cumulative set of known rules, and a `StreakTracker` watches the per-report
//! count of new rules.
use vstd::prelude::*;
use crate::order::{lemma_sorted_distinct, lex_lt, str_less, str_eq, strictly_sorted, views, RuleSet};
use crate::report::{parse_unclear_points, point_views, unclear_points, PointView, UnclearPoint};
use crate::streak::{lemma_observe_extends, lemma_state_bounds, signal_of, state_after, Signal, StreakTracker};
use crate::text::{chars_of, is_digit, is_white_space, push_chars, push_str, string_of, white_space};

verus! {

// ---------------------------------------------------------------------------
// Rule keys
// ---------------------------------------------------------------------------

/// `str::to_lowercase`: the lowercase equivalent of a text under the Unicode
/// `Lowercase` property (one character may become several).
pub uninterp spec fn lowercase(s: Seq<char>) -> Seq<char>;

/// `str::to_lowercase`: the result is `lowercase` of the argument; the case
/// tables themselves are left unsaid.
#[verifier::external_body]
fn to_lowercase(s: &str) -> (r: String)
    ensures
        r@ == lowercase(s@),
{
    s.to_lowercase()
}

/// The words of `s` (maximal runs of non-whitespace characters) joined by
/// single spaces: what `split_whitespace` followed by `join(" ")` gives.
pub open spec fn collapse_ws(s: Seq<char>) -> Seq<char>
    decreases s.len(),
{
    if s.len() == 0 {
        s
    } else {
        let p = s.drop_last();
        let c = s.last();
        let r = collapse_ws(p);
        if white_space(c) {
            r
        } else if p.len() > 0 && !white_space(p.last()) {
            r.push(c)
        } else if r.len() > 0 {
            r.push(' ').push(c)
        } else {
            r.push(c)
        }
    }
}

/// The normalized key of a rule text: whitespace collapsed, then lowercased.
pub open spec fn normalized(s: Seq<char>) -> Seq<char> {
    lowercase(collapse_ws(s))
}

/// Trims, collapses whitespace and lowercases a rule, so that two rules that
/// differ only by spacing or case get the same key.
pub fn normalize_rule(s: &str) -> (k: String)
    ensures
        k@ == normalized(s@),
{
    let v = chars_of(s);
    let mut out: Vec<char> = Vec::new();
    let mut i: usize = 0;
    assert(v@.take(0) =~= Seq::<char>::empty());
    while i < v.len()
        invariant
            i <= v@.len(),
            out@ == collapse_ws(v@.take(i as int)),
        decreases v.len() - i,
    {
        let c = v[i];
        assert(v@.take(i + 1).drop_last() =~= v@.take(i as int));
        assert(v@.take(i + 1).last() == c);
        if is_white_space(c) {
        } else if i > 0 && !is_white_space(v[i - 1]) {
            assert(v@.take(i as int).last() == v@[i - 1]);
            out.push(c);
        } else if out.len() > 0 {
            proof {
                if i > 0 {
                    assert(v@.take(i as int).last() == v@[i - 1]);
                }
            }
            out.push(' ');
            out.push(c);
        } else {
            proof {
                if i > 0 {
                    assert(v@.take(i as int).last() == v@[i - 1]);
                }
            }
            out.push(c);
        }
        i = i + 1;
    }
    assert(v@.take(v@.len() as int) =~= v@);
    let collapsed = string_of(out.as_slice());
    to_lowercase(collapsed.as_str())
}

/// Every character of `w` is whitespace.
pub open spec fn all_white(w: Seq<char>) -> bool {
    forall|k: int| 0 <= k < w.len() ==> white_space(#[trigger] w[k])
}

proof fn lemma_collapse_trailing(a: Seq<char>, w: Seq<char>)
    requires
        all_white(w),
    ensures
        collapse_ws(a + w) == collapse_ws(a),
    decreases w.len(),
{
    if w.len() > 0 {
        assert((a + w).drop_last() =~= a + w.drop_last());
        assert((a + w).last() == w.last());
        assert(white_space(w[w.len() - 1]));
        lemma_collapse_trailing(a, w.drop_last());
    } else {
        assert(a + w =~= a);
    }
}

proof fn lemma_collapse_middle(a: Seq<char>, w1: Seq<char>, w2: Seq<char>, b: Seq<char>)
    requires
        all_white(w1),
        all_white(w2),
        w1.len() > 0,
        w2.len() > 0,
    ensures
        collapse_ws(a + w1 + b) == collapse_ws(a + w2 + b),
    decreases b.len(),
{
    if b.len() == 0 {
        assert(a + w1 + b =~= a + w1);
        assert(a + w2 + b =~= a + w2);
        lemma_collapse_trailing(a, w1);
        lemma_collapse_trailing(a, w2);
    } else {
        let b2 = b.drop_last();
        assert((a + w1 + b).drop_last() =~= a + w1 + b2);
        assert((a + w2 + b).drop_last() =~= a + w2 + b2);
        assert((a + w1 + b).last() == b.last());
        assert((a + w2 + b).last() == b.last());
        lemma_collapse_middle(a, w1, w2, b2);
        if b2.len() == 0 {
            assert(a + w1 + b2 =~= a + w1);
            assert(a + w2 + b2 =~= a + w2);
            assert((a + w1 + b2).last() == w1.last());
            assert((a + w2 + b2).last() == w2.last());
            assert(white_space(w1[w1.len() - 1]));
            assert(white_space(w2[w2.len() - 1]));
        } else {
            assert((a + w1 + b2).last() == b2.last());
            assert((a + w2 + b2).last() == b2.last());
        }
    }
}

proof fn lemma_collapse_leading(w: Seq<char>, b: Seq<char>)
    requires
        all_white(w),
    ensures
        collapse_ws(w + b) == collapse_ws(b),
    decreases b.len(),
{
    if w.len() == 0 {
        assert(w + b =~= b);
    } else if b.len() == 0 {
        assert(w + b =~= Seq::<char>::empty() + w);
        lemma_collapse_trailing(Seq::<char>::empty(), w);
        assert(w + b =~= w);
    } else {
        let b2 = b.drop_last();
        assert((w + b).drop_last() =~= w + b2);
        assert((w + b).last() == b.last());
        lemma_collapse_leading(w, b2);
        if b2.len() == 0 {
            assert(w + b2 =~= w);
            assert((w + b2).last() == w.last());
            assert(white_space(w[w.len() - 1]));
            assert(w =~= Seq::<char>::empty() + w);
            lemma_collapse_trailing(Seq::<char>::empty(), w);
        } else {
            assert((w + b2).last() == b2.last());
        }
    }
}

/// Spacing does not change a rule's key: whitespace before or after the text
/// is ignored, and any run of whitespace inside it counts the same as any
/// other.
pub proof fn lemma_key_ignores_spacing(a: Seq<char>, w1: Seq<char>, w2: Seq<char>, b: Seq<char>)
    requires
        all_white(w1),
        all_white(w2),
    ensures
        normalized(w1 + a) == normalized(a),
        normalized(a + w1) == normalized(a),
        w1.len() > 0 && w2.len() > 0 ==> normalized(a + w1 + b) == normalized(a + w2 + b),
{
    lemma_collapse_leading(w1, a);
    lemma_collapse_trailing(a, w1);
    if w1.len() > 0 && w2.len() > 0 {
        lemma_collapse_middle(a, w1, w2, b);
    }
}

// ---------------------------------------------------------------------------
// Classification
// ---------------------------------------------------------------------------

/// The text a point is keyed by: its rule, or its issue when the rule is empty.
pub open spec fn rule_source(p: PointView) -> Seq<char> {
    if p.rule.len() == 0 {
        p.issue
    } else {
        p.rule
    }
}

/// The non-empty normalized keys of a report's points.
pub open spec fn report_keys(pts: Seq<PointView>) -> Set<Seq<char>> {
    Set::new(
        |k: Seq<char>|
            k.len() > 0 && exists|i: int| 0 <= i < pts.len() && normalized(rule_source(#[trigger] pts[i])) == k,
    )
}

/// `new` and `reseen` are the report's keys that are not known, respectively
/// known, each listed once in ascending order.
pub open spec fn classified(
    pts: Seq<PointView>,
    known: Set<Seq<char>>,
    new: Seq<Seq<char>>,
    reseen: Seq<Seq<char>>,
) -> bool {
    &&& strictly_sorted(new)
    &&& new.to_set() == report_keys(pts).difference(known)
    &&& strictly_sorted(reseen)
    &&& reseen.to_set() == report_keys(pts).intersect(known)
}

/// Classifies the points of one report against the cumulative `known` set,
/// returning (new rule keys, re-seen rule keys), deduplicated and sorted. A
/// point with an empty rule is keyed by its issue; empty keys are skipped.
pub fn classify(points: &[UnclearPoint], known: &RuleSet) -> (r: (Vec<String>, Vec<String>))
    requires
        known.wf(),
    ensures
        classified(point_views(points@), known@, views(r.0@), views(r.1@)),
{
    let ghost pts = point_views(points@);
    let mut new = RuleSet::new();
    let mut reseen = RuleSet::new();
    let mut i: usize = 0;
    assert(report_keys(pts.take(0)) =~= Set::<Seq<char>>::empty());
    while i < points.len()
        invariant
            i <= points@.len(),
            pts == point_views(points@),
            known.wf(),
            new.wf(),
            reseen.wf(),
            new@ == report_keys(pts.take(i as int)).difference(known@),
            reseen@ == report_keys(pts.take(i as int)).intersect(known@),
        decreases points.len() - i,
    {
        let p = &points[i];
        let key = if p.rule.as_str().is_empty() {
            normalize_rule(p.issue.as_str())
        } else {
            normalize_rule(p.rule.as_str())
        };
        let ghost k = key@;
        assert(k == normalized(rule_source(pts[i as int])));
        proof {
            let before = pts.take(i as int);
            let after = pts.take(i + 1);
            assert forall|x: Seq<char>| #[trigger] report_keys(after).contains(x) <==> report_keys(
                before,
            ).contains(x) || (x == k && k.len() > 0) by {
                if report_keys(after).contains(x) {
                    let j = choose|j: int|
                        0 <= j < after.len() && normalized(rule_source(#[trigger] after[j])) == x;
                    if j < i {
                        assert(before[j] == after[j]);
                    }
                }
                if report_keys(before).contains(x) {
                    let j = choose|j: int|
                        0 <= j < before.len() && normalized(rule_source(#[trigger] before[j])) == x;
                    assert(after[j] == before[j]);
                }
                if x == k && k.len() > 0 {
                    assert(after[i as int] == pts[i as int]);
                }
            }
        }
        if key.as_str().is_empty() {
            assert(report_keys(pts.take(i + 1)) =~= report_keys(pts.take(i as int)));
        } else if known.contains(key.as_str()) {
            reseen.insert(key);
            assert(report_keys(pts.take(i + 1)).intersect(known@) =~= report_keys(
                pts.take(i as int),
            ).intersect(known@).insert(k));
            assert(report_keys(pts.take(i + 1)).difference(known@) =~= report_keys(
                pts.take(i as int),
            ).difference(known@));
        } else {
            new.insert(key);
            assert(report_keys(pts.take(i + 1)).difference(known@) =~= report_keys(
                pts.take(i as int),
            ).difference(known@).insert(k));
            assert(report_keys(pts.take(i + 1)).intersect(known@) =~= report_keys(
                pts.take(i as int),
            ).intersect(known@));
        }
        i = i + 1;
    }
    assert(pts.take(points@.len() as int) =~= pts);
    proof {
        new.lemma_wf_sorted();
        reseen.lemma_wf_sorted();
        new.lemma_view_is_ordered();
        reseen.lemma_view_is_ordered();
    }
    (new.into_vec(), reseen.into_vec())
}

/// A classified report lists no key twice, never lists a key as both new and
/// re-seen, and together the two lists cover exactly the report's keys; a new
/// key was not known and a re-seen key was.
pub proof fn lemma_classification_partition(
    pts: Seq<PointView>,
    known: Set<Seq<char>>,
    new: Seq<Seq<char>>,
    reseen: Seq<Seq<char>>,
)
    requires
        classified(pts, known, new, reseen),
    ensures
        new.no_duplicates(),
        reseen.no_duplicates(),
        new.to_set().disjoint(reseen.to_set()),
        new.to_set().union(reseen.to_set()) == report_keys(pts),
        forall|k: Seq<char>| new.contains(k) ==> !known.contains(k),
        forall|k: Seq<char>| reseen.contains(k) ==> known.contains(k),
{
    lemma_sorted_distinct(new);
    lemma_sorted_distinct(reseen);
    assert forall|k: Seq<char>| new.contains(k) implies !known.contains(k) by {
        assert(new.to_set().contains(k));
    }
    assert forall|k: Seq<char>| reseen.contains(k) implies known.contains(k) by {
        assert(reseen.to_set().contains(k));
    }
    assert(new.to_set().union(reseen.to_set()) =~= report_keys(pts));
}

// ---------------------------------------------------------------------------
// Dates in file stems
// ---------------------------------------------------------------------------

/// `s[i..i + 10]` has the shape `YYYY-MM-DD` (ASCII digits and dashes).
pub open spec fn date_at(s: Seq<char>, i: int) -> bool {
    0 <= i && i + 10 <= s.len() && forall|k: int|
        0 <= k < 10 ==> if k == 4 || k == 7 {
            s[i + k] == '-'
        } else {
            is_digit(#[trigger] s[i + k])
        }
}

/// `i` is the first place where a date begins in `s`.
pub open spec fn first_date_at(s: Seq<char>, i: int) -> bool {
    date_at(s, i) && forall|j: int| 0 <= j < i ==> !date_at(s, j)
}

/// The first `YYYY-MM-DD` in `s`, if any.
pub open spec fn first_date(s: Seq<char>) -> Option<Seq<char>> {
    if exists|i: int| date_at(s, i) {
        let i = choose|i: int| first_date_at(s, i);
        Some(s.subrange(i, i + 10))
    } else {
        None
    }
}

proof fn lemma_first_date_unique(s: Seq<char>, i: int)
    requires
        first_date_at(s, i),
    ensures
        first_date(s) == Some(s.subrange(i, i + 10)),
{
    let k = choose|k: int| first_date_at(s, k);
    assert(first_date_at(s, k));
    if k < i {
        assert(!date_at(s, k));
    } else if k > i {
        assert(!date_at(s, i));
    }
}

/// Whether a date begins at `s[i]`.
fn date_begins(s: &[char], i: usize) -> (b: bool)
    requires
        i + 10 <= s@.len(),
    ensures
        b == date_at(s@, i as int),
{
    let n = s.len();
    let mut k: usize = 0;
    while k < 10
        invariant
            k <= 10,
            n == s@.len(),
            i + 10 <= s@.len(),
            forall|j: int|
                0 <= j < k ==> if j == 4 || j == 7 {
                    s@[i + j] == '-'
                } else {
                    is_digit(#[trigger] s@[i + j])
                },
        decreases 10 - k,
    {
        let c = s[i + k];
        if k == 4 || k == 7 {
            if c != '-' {
                return false;
            }
        } else if !('0' <= c && c <= '9') {
            assert(!is_digit(s@[i + k]));
            return false;
        }
        k = k + 1;
    }
    true
}

/// `nippo-2026-05-11`, `reflection-2026-05-11-7d` → `Some("2026-05-11")`: the
/// first ten characters shaped like `YYYY-MM-DD`.
pub fn extract_date_from_stem(stem: &str) -> (d: Option<String>)
    ensures
        match d {
            Some(x) => first_date(stem@) == Some(x@),
            None => first_date(stem@) is None,
        },
{
    let v = chars_of(stem);
    let n = v.len();
    if n < 10 {
        return None;
    }
    let mut start: usize = 0;
    while start <= n - 10
        invariant
            10 <= n == v@.len(),
            v@ == stem@,
            start <= n - 9,
            forall|j: int| 0 <= j < start ==> !date_at(v@, j),
        decreases n - 9 - start,
    {
        if date_begins(v.as_slice(), start) {
            proof {
                lemma_first_date_unique(v@, start as int);
            }
            return Some(string_of(&v.as_slice()[start..start + 10]));
        }
        start = start + 1;
    }
    None
}

// ---------------------------------------------------------------------------
// Log lines
// ---------------------------------------------------------------------------

/// The decimal digit `d`.
pub open spec fn digit_char(d: int) -> char {
    (48 + d) as char
}

/// The decimal representation of `n`.
pub open spec fn decimal(n: nat) -> Seq<char>
    decreases n,
{
    if n < 10 {
        seq![digit_char(n as int)]
    } else {
        decimal(n / 10).push(digit_char((n % 10) as int))
    }
}

/// `s` padded on the right with spaces to at least `w` characters.
pub open spec fn pad_right(s: Seq<char>, w: nat) -> Seq<char> {
    if s.len() >= w {
        s
    } else {
        s + Seq::new((w - s.len()) as nat, |_i: int| ' ')
    }
}

/// The streak badge of a log line.
pub open spec fn signal_tag(s: Signal) -> Seq<char> {
    match s {
        Signal::Continue => seq!['.', '.'],
        Signal::Converged => seq!['C', 'O', 'N', 'V', 'E', 'R', 'G', 'E', 'D'],
        Signal::Diverged => seq!['D', 'I', 'V', 'E', 'R', 'G', 'E'],
    }
}

/// `{report:<28} new={new:<2} reseen={reseen:<2} [{signal}]`.
pub open spec fn log_line(report: Seq<char>, new: nat, reseen: nat, s: Signal) -> Seq<char> {
    pad_right(report, 28) + seq![' ', 'n', 'e', 'w', '='] + pad_right(decimal(new), 2) + seq![
        ' ',
        'r',
        'e',
        's',
        'e',
        'e',
        'n',
        '=',
    ] + pad_right(decimal(reseen), 2) + seq![' ', '['] + signal_tag(s) + seq![']']
}

/// Appends the decimal digits of `n`.
fn push_decimal(s: &mut String, n: usize)
    ensures
        final(s)@ == old(s)@ + decimal(n as nat),
    decreases n,
{
    if n >= 10 {
        push_decimal(s, n / 10);
    }
    let d: usize = n % 10;
    let u: u8 = (48 + d) as u8;
    assert(u == 48 + d) by (bit_vector)
        requires
            d < 10,
            u == (48 + d) as u8,
    ;
    let c = u as char;
    let v: Vec<char> = vec![c];
    push_chars(s, v.as_slice());
    proof {
        if n >= 10 {
            assert(decimal(n as nat) == decimal((n / 10) as nat).push(digit_char((n % 10) as int)));
        }
    }
    assert(final(s)@ =~= old(s)@ + decimal(n as nat)) by {
        if n < 10 {
            assert(decimal(n as nat) =~= seq![digit_char(n as int)]);
        }
    }
}

/// Appends `v` padded with spaces to `w` characters.
fn push_padded(s: &mut String, v: &[char], w: usize)
    ensures
        final(s)@ == old(s)@ + pad_right(v@, w as nat),
{
    push_chars(s, v);
    let mut k: usize = v.len();
    let ghost base = old(s)@ + v@;
    while k < w
        invariant
            v@.len() <= k || k == v@.len(),
            k <= w || k == v@.len(),
            s@ == base + Seq::new((k - v@.len()) as nat, |_i: int| ' '),
        decreases w - k,
    {
        let sp: Vec<char> = vec![' '];
        push_chars(s, sp.as_slice());
        k = k + 1;
        assert(s@ =~= base + Seq::new((k - v@.len()) as nat, |_i: int| ' '));
    }
    assert(s@ =~= old(s)@ + pad_right(v@, w as nat));
}

/// A report's entry in the ledger.
pub struct ReportEntry {
    /// File name of the report (no leading directory).
    pub report: String,
    /// Date inferred from the file name (`YYYY-MM-DD`), if any.
    pub date: Option<String>,
    pub new_rules: Vec<String>,
    pub reseen_rules: Vec<String>,
    pub points: Vec<UnclearPoint>,
}

/// The text of a `ReportEntry`.
pub struct EntryView {
    pub report: Seq<char>,
    pub date: Option<Seq<char>>,
    pub new_rules: Seq<Seq<char>>,
    pub reseen_rules: Seq<Seq<char>>,
    pub points: Seq<PointView>,
}

/// The view of an optional string.
pub open spec fn opt_view(o: Option<String>) -> Option<Seq<char>> {
    match o {
        Some(s) => Some(s@),
        None => None,
    }
}

impl View for ReportEntry {
    type V = EntryView;

    open spec fn view(&self) -> EntryView {
        EntryView {
            report: self.report@,
            date: opt_view(self.date),
            new_rules: views(self.new_rules@),
            reseen_rules: views(self.reseen_rules@),
            points: point_views(self.points@),
        }
    }
}

/// One summary line for a folded report.
pub fn format_log_line(entry: &ReportEntry, signal: Signal) -> (line: String)
    ensures
        line@ == log_line(
            entry.report@,
            entry.new_rules@.len(),
            entry.reseen_rules@.len(),
            signal,
        ),
{
    let mut s = String::new();
    let name = chars_of(entry.report.as_str());
    push_padded(&mut s, name.as_slice(), 28);
    push_str(&mut s, " new=");
    let mut num = String::new();
    push_decimal(&mut num, entry.new_rules.len());
    let numv = chars_of(num.as_str());
    push_padded(&mut s, numv.as_slice(), 2);
    push_str(&mut s, " reseen=");
    let mut num2 = String::new();
    push_decimal(&mut num2, entry.reseen_rules.len());
    let numv2 = chars_of(num2.as_str());
    push_padded(&mut s, numv2.as_slice(), 2);
    push_str(&mut s, " [");
    match signal {
        Signal::Continue => push_str(&mut s, ".."),
        Signal::Converged => push_str(&mut s, "CONVERGED"),
        Signal::Diverged => push_str(&mut s, "DIVERGE"),
    }
    push_str(&mut s, "]");
    proof {
        reveal_strlit(" new=");
        reveal_strlit(" reseen=");
        reveal_strlit(" [");
        reveal_strlit("..");
        reveal_strlit("CONVERGED");
        reveal_strlit("DIVERGE");
        reveal_strlit("]");
        assert(Seq::<char>::empty() + decimal(entry.new_rules@.len()) =~= decimal(
            entry.new_rules@.len(),
        ));
        assert(Seq::<char>::empty() + decimal(entry.reseen_rules@.len()) =~= decimal(
            entry.reseen_rules@.len(),
        ));
    }
    assert(s@ =~= log_line(
        entry.report@,
        entry.new_rules@.len(),
        entry.reseen_rules@.len(),
        signal,
    ));
    s
}

// ---------------------------------------------------------------------------
// Folding reports into the ledger
// ---------------------------------------------------------------------------

/// Reports folded in, in the order they were processed, and the normalized
/// rule keys seen across all of them.
pub struct Ledger {
    pub reports: Vec<ReportEntry>,
    pub known_rules: RuleSet,
}

/// A report to fold in: its file name, its file stem (when it is valid
/// UTF-8), and its text.
pub struct ReportSource {
    pub report: String,
    pub stem: Option<String>,
    pub text: String,
}

/// What rebuilding the ledger produces: the ledger, the signal of the last
/// report's observation, and one summary line per report.
pub struct RebuildOutcome {
    pub ledger: Ledger,
    pub signal: Signal,
    pub log: Vec<String>,
}

/// The views of a sequence of entries.
pub open spec fn entry_views(v: Seq<ReportEntry>) -> Seq<EntryView> {
    v.map_values(|e: ReportEntry| e@)
}

/// The rules known before entry `i`: the union of the new rules of entries
/// `0..i`.
pub open spec fn known_before(es: Seq<EntryView>, i: int) -> Set<Seq<char>>
    decreases i,
{
    if i <= 0 {
        Set::empty()
    } else {
        known_before(es, i - 1).union(es[i - 1].new_rules.to_set())
    }
}

/// The new-rule count of each entry.
pub open spec fn new_counts(es: Seq<EntryView>) -> Seq<usize> {
    es.map_values(|e: EntryView| e.new_rules.len() as usize)
}

/// The date a file stem carries.
pub open spec fn stem_date(stem: Option<String>) -> Option<Seq<char>> {
    match stem {
        Some(s) => first_date(s@),
        None => None,
    }
}

/// Entry `e` is the result of folding `src` in while `known` were the known
/// rules.
pub open spec fn folded_entry(src: ReportSource, e: EntryView, known: Set<Seq<char>>) -> bool {
    &&& e.report == src.report@
    &&& e.date == stem_date(src.stem)
    &&& e.points == unclear_points(src.text@)
    &&& classified(e.points, known, e.new_rules, e.reseen_rules)
}

/// Every source was folded in, in order, each against the rules known from
/// the entries before it.
pub open spec fn folded(srcs: Seq<ReportSource>, es: Seq<EntryView>) -> bool {
    &&& es.len() == srcs.len()
    &&& forall|i: int| 0 <= i < srcs.len() ==> folded_entry(srcs[i], #[trigger] es[i], known_before(es, i))
}

/// The signal after folding entries `0..=i`.
pub open spec fn signal_at(es: Seq<EntryView>, i: int) -> Signal {
    signal_of(state_after(new_counts(es).take(i + 1)))
}

impl Ledger {
    /// An empty ledger.
    pub fn new() -> (l: Ledger)
        ensures
            l.reports@.len() == 0,
            l.known_rules.wf(),
            l.known_rules@ == Set::<Seq<char>>::empty(),
    {
        Ledger { reports: Vec::new(), known_rules: RuleSet::new() }
    }
}

proof fn lemma_known_before_prefix(es: Seq<EntryView>, e: EntryView, i: int)
    requires
        0 <= i <= es.len(),
    ensures
        known_before(es.push(e), i) == known_before(es, i),
    decreases i,
{
    if i > 0 {
        lemma_known_before_prefix(es, e, i - 1);
        assert(es.push(e)[i - 1] == es[i - 1]);
    }
}

/// Folds every report into a fresh ledger, in order; the streak signal never
/// stops the fold. Returns the ledger, the signal from the last report's
/// observation (`Continue` when there are none) and one summary line per
/// report.
pub fn fold_reports(sources: &[ReportSource]) -> (out: RebuildOutcome)
    requires
        sources@.len() < u32::MAX,
    ensures
        folded(sources@, entry_views(out.ledger.reports@)),
        out.ledger.known_rules.wf(),
        out.ledger.known_rules@ == known_before(
            entry_views(out.ledger.reports@),
            sources@.len() as int,
        ),
        out.signal == (if sources@.len() == 0 {
            Signal::Continue
        } else {
            signal_of(state_after(new_counts(entry_views(out.ledger.reports@))))
        }),
        out.log@.len() == sources@.len(),
        forall|i: int|
            0 <= i < sources@.len() ==> (#[trigger] out.log@[i])@ == log_line(
                entry_views(out.ledger.reports@)[i].report,
                entry_views(out.ledger.reports@)[i].new_rules.len(),
                entry_views(out.ledger.reports@)[i].reseen_rules.len(),
                signal_at(entry_views(out.ledger.reports@), i),
            ),
{
    let mut ledger = Ledger::new();
    let mut tracker = StreakTracker::default();
    let mut log: Vec<String> = Vec::new();
    let mut last_signal = Signal::Continue;
    let mut i: usize = 0;
    while i < sources.len()
        invariant
            i <= sources@.len() < u32::MAX,
            entry_views(ledger.reports@).len() == i,
            forall|j: int|
                0 <= j < i ==> folded_entry(
                    sources@[j],
                    #[trigger] entry_views(ledger.reports@)[j],
                    known_before(entry_views(ledger.reports@), j),
                ),
            ledger.known_rules.wf(),
            ledger.known_rules@ == known_before(entry_views(ledger.reports@), i as int),
            tracker@ == state_after(new_counts(entry_views(ledger.reports@))),
            last_signal == (if i == 0 {
                Signal::Continue
            } else {
                signal_of(state_after(new_counts(entry_views(ledger.reports@))))
            }),
            log@.len() == i,
            forall|j: int|
                0 <= j < i ==> (#[trigger] log@[j])@ == log_line(
                    entry_views(ledger.reports@)[j].report,
                    entry_views(ledger.reports@)[j].new_rules.len(),
                    entry_views(ledger.reports@)[j].reseen_rules.len(),
                    signal_at(entry_views(ledger.reports@), j),
                ),
        decreases sources.len() - i,
    {
        let src = &sources[i];
        let ghost es = entry_views(ledger.reports@);
        let points = parse_unclear_points(src.text.as_str());
        let (new_rules, reseen_rules) = classify(points.as_slice(), &ledger.known_rules);
        let mut j: usize = 0;
        while j < new_rules.len()
            invariant
                j <= new_rules@.len(),
                ledger.known_rules.wf(),
                es == entry_views(ledger.reports@),
                ledger.known_rules@ == known_before(es, i as int).union(
                    views(new_rules@).take(j as int).to_set(),
                ),
            decreases new_rules.len() - j,
        {
            ledger.known_rules.insert(new_rules[j].clone());
            assert(views(new_rules@).take(j + 1) =~= views(new_rules@).take(j as int).push(
                new_rules@[j as int]@,
            ));
            proof {
                let a = views(new_rules@).take(j as int);
                let x = new_rules@[j as int]@;
                assert forall|y: Seq<char>| #[trigger] a.push(x).contains(y) <==> a.contains(y) || y == x by {
                    if a.push(x).contains(y) {
                        let k = choose|k: int| 0 <= k < a.push(x).len() && a.push(x)[k] == y;
                        if k < a.len() {
                            assert(a[k] == y);
                        }
                    }
                    if a.contains(y) {
                        let k = choose|k: int| 0 <= k < a.len() && a[k] == y;
                        assert(a.push(x)[k] == y);
                    }
                    if y == x {
                        assert(a.push(x)[a.len() as int] == y);
                    }
                }
                assert(a.push(x).to_set() =~= a.to_set().insert(x));
            }
            j = j + 1;
        }
        assert(views(new_rules@).take(new_rules@.len() as int) =~= views(new_rules@));
        let date = match &src.stem {
            Some(st) => extract_date_from_stem(st.as_str()),
            None => None,
        };
        proof {
            lemma_state_bounds(new_counts(es));
        }
        let signal = tracker.observe(new_rules.len());
        last_signal = signal;
        let entry = ReportEntry { report: src.report.clone(), date, new_rules, reseen_rules, points };
        let line = format_log_line(&entry, signal);
        ledger.reports.push(entry);
        log.push(line);
        proof {
            let es2 = entry_views(ledger.reports@);
            assert(es2 =~= es.push(entry@));
            assert(new_counts(es2) =~= new_counts(es).push(entry@.new_rules.len() as usize));
            lemma_observe_extends(new_counts(es), entry@.new_rules.len() as usize);
            lemma_known_before_prefix(es, entry@, i as int);
            assert(known_before(es2, i + 1) == known_before(es2, i as int).union(
                entry@.new_rules.to_set(),
            ));
            assert forall|j: int| 0 <= j < i implies signal_at(es2, j) == signal_at(es, j) by {
                assert(new_counts(es2).take(j + 1) =~= new_counts(es).take(j + 1));
            }
            assert(new_counts(es2).take(i + 1) =~= new_counts(es2));
            assert forall|j: int| 0 <= j < i implies known_before(es2, j) == known_before(es, j) by {
                lemma_known_before_prefix(es, entry@, j);
            }
            assert(es2[i as int] == entry@);
            assert forall|j: int| 0 <= j < i implies es2[j] == es[j] by {}
        }
        i = i + 1;
    }
    RebuildOutcome { ledger, signal: last_signal, log }
}

/// A rule is new in at most one report: once a report has introduced it, it
/// is known for every later report.
pub proof fn lemma_new_once(srcs: Seq<ReportSource>, es: Seq<EntryView>, i: int, j: int, k: Seq<char>)
    requires
        folded(srcs, es),
        0 <= i < j < es.len(),
        es[i].new_rules.contains(k),
    ensures
        !es[j].new_rules.contains(k),
        known_before(es, j).contains(k),
{
    lemma_known_grows(es, i + 1, j);
    assert(es[i].new_rules.to_set().contains(k));
    assert(known_before(es, i + 1).contains(k));
    assert(folded_entry(srcs[j], es[j], known_before(es, j)));
    if es[j].new_rules.contains(k) {
        assert(es[j].new_rules.to_set().contains(k));
    }
}

/// The known rules only grow from one entry to the next.
pub proof fn lemma_known_grows(es: Seq<EntryView>, a: int, b: int)
    requires
        0 <= a <= b,
    ensures
        known_before(es, a).subset_of(known_before(es, b)),
    decreases b - a,
{
    if a < b {
        lemma_known_grows(es, a, b - 1);
    }
}

/// Every rule in the ledger's known set was introduced as new by exactly the
/// reports before it, and every rule a report introduced is known afterwards.
pub proof fn lemma_known_is_union(es: Seq<EntryView>, n: int, k: Seq<char>)
    requires
        0 <= n <= es.len(),
    ensures
        known_before(es, n).contains(k) <==> exists|i: int|
            0 <= i < n && (#[trigger] es[i]).new_rules.contains(k),
    decreases n,
{
    if n > 0 {
        lemma_known_is_union(es, n - 1, k);
        if es[n - 1].new_rules.contains(k) {
            assert(es[n - 1].new_rules.to_set().contains(k));
        }
        if known_before(es, n).contains(k) && !known_before(es, n - 1).contains(k) {
            assert(es[n - 1].new_rules.to_set().contains(k));
        }
    }
}

// ---------------------------------------------------------------------------
// Choosing the daily reports of a directory
// ---------------------------------------------------------------------------

/// A directory entry: its file name, and its stem and extension when they are
/// valid UTF-8.
pub struct ReportFile {
    pub name: String,
    pub stem: Option<String>,
    pub extension: Option<String>,
}

/// `nippo-`, the prefix of a daily report's file stem.
pub open spec fn nippo_prefix() -> Seq<char> {
    seq!['n', 'i', 'p', 'p', 'o', '-']
}

/// A daily report: a stem that starts with `nippo-` and carries a date, and
/// the extension `md`.
pub open spec fn is_daily_report(f: ReportFile) -> bool {
    &&& f.stem is Some
    &&& crate::text::starts_with(f.stem->0@, nippo_prefix())
    &&& f.extension is Some
    &&& f.extension->0@ == seq!['m', 'd']
    &&& first_date(f.stem->0@) is Some
}

/// The order of reports: by date, then by file name, then by position.
pub open spec fn report_before(fs: Seq<ReportFile>, a: int, b: int) -> bool {
    let da = first_date(fs[a].stem->0@)->0;
    let db = first_date(fs[b].stem->0@)->0;
    ||| lex_lt(da, db)
    ||| (da == db && lex_lt(fs[a].name@, fs[b].name@))
    ||| (da == db && fs[a].name@ == fs[b].name@ && a < b)
}

/// `idx` lists the daily reports among `fs`, each once, oldest first.
pub open spec fn report_order(fs: Seq<ReportFile>, idx: Seq<usize>) -> bool {
    &&& forall|k: int| 0 <= k < idx.len() ==> #[trigger] idx[k] < fs.len()
    &&& forall|k: int| 0 <= k < idx.len() ==> is_daily_report(fs[#[trigger] idx[k] as int])
    &&& forall|i: int| 0 <= i < fs.len() && is_daily_report(fs[i]) ==> idx.contains(i as usize)
    &&& forall|k: int, l: int| 0 <= k < l < idx.len() ==> report_before(fs, #[trigger] idx[k] as int, #[trigger] idx[l] as int)
}

/// The date of a daily report, when the file is one.
fn daily_report_date(f: &ReportFile) -> (d: Option<String>)
    ensures
        match d {
            Some(x) => is_daily_report(*f) && first_date(f.stem->0@) == Some(x@),
            None => !is_daily_report(*f),
        },
{
    let stem = match &f.stem {
        Some(s) => s,
        None => return None,
    };
    let ext = match &f.extension {
        Some(e) => e,
        None => return None,
    };
    let sv = chars_of(stem.as_str());
    let prefix: Vec<char> = vec!['n', 'i', 'p', 'p', 'o', '-'];
    if !crate::text::has_prefix(sv.as_slice(), prefix.as_slice()) {
        return None;
    }
    let ev = chars_of(ext.as_str());
    let md: Vec<char> = vec!['m', 'd'];
    if !crate::text::same_chars(ev.as_slice(), md.as_slice()) {
        return None;
    }
    extract_date_from_stem(stem.as_str())
}

/// Whether report `a` (dated `da`) comes before report `b` (dated `db`).
fn comes_before(fs: &[ReportFile], a: usize, da: &str, b: usize, db: &str) -> (r: bool)
    requires
        a < fs@.len(),
        b < fs@.len(),
        is_daily_report(fs@[a as int]),
        is_daily_report(fs@[b as int]),
        first_date(fs@[a as int].stem->0@) == Some(da@),
        first_date(fs@[b as int].stem->0@) == Some(db@),
    ensures
        r == report_before(fs@, a as int, b as int),
{
    if str_less(da, db) {
        return true;
    }
    if !str_eq(da, db) {
        return false;
    }
    if str_less(fs[a].name.as_str(), fs[b].name.as_str()) {
        return true;
    }
    str_eq(fs[a].name.as_str(), fs[b].name.as_str()) && a < b
}

/// The daily reports among `files` (stem starting with `nippo-`, extension
/// `md`, a `YYYY-MM-DD` in the stem), as positions in `files`, sorted oldest
/// first by the date in the stem and then by file name.
pub fn select_reports(files: &[ReportFile]) -> (idx: Vec<usize>)
    ensures
        report_order(files@, idx@),
{
    let mut idx: Vec<usize> = Vec::new();
    let mut dates: Vec<String> = Vec::new();
    let mut i: usize = 0;
    while i < files.len()
        invariant
            i <= files@.len(),
            idx@.len() == dates@.len(),
            forall|k: int| 0 <= k < idx@.len() ==> #[trigger] idx@[k] < i,
            forall|k: int| 0 <= k < idx@.len() ==> is_daily_report(files@[#[trigger] idx@[k] as int]),
            forall|k: int|
                0 <= k < idx@.len() ==> first_date(files@[#[trigger] idx@[k] as int].stem->0@)
                    == Some(dates@[k]@),
            forall|j: int| 0 <= j < i && is_daily_report(files@[j]) ==> idx@.contains(j as usize),
            forall|k: int, l: int|
                0 <= k < l < idx@.len() ==> report_before(files@, #[trigger] idx@[k] as int, #[trigger] idx@[l] as int),
        decreases files.len() - i,
    {
        match daily_report_date(&files[i]) {
            None => {},
            Some(d) => {
                // Insert `i` after every listed report that comes before it.
                let mut p: usize = idx.len();
                loop
                    invariant
                        p <= idx@.len() == dates@.len(),
                        i < files@.len(),
                        is_daily_report(files@[i as int]),
                        first_date(files@[i as int].stem->0@) == Some(d@),
                        forall|k: int| 0 <= k < idx@.len() ==> #[trigger] idx@[k] < i,
                        forall|k: int| 0 <= k < idx@.len() ==> is_daily_report(files@[#[trigger] idx@[k] as int]),
                        forall|k: int|
                            0 <= k < idx@.len() ==> first_date(files@[#[trigger] idx@[k] as int].stem->0@)
                                == Some(dates@[k]@),
                        forall|k: int| p <= k < idx@.len() ==> report_before(files@, i as int, #[trigger] idx@[k] as int),
                    ensures
                        p <= idx@.len(),
                        forall|k: int| p <= k < idx@.len() ==> report_before(files@, i as int, #[trigger] idx@[k] as int),
                        p > 0 ==> report_before(files@, idx@[p - 1] as int, i as int),
                    decreases p,
                {
                    if p == 0 {
                        break;
                    }
                    let before = comes_before(files, i, d.as_str(), idx[p - 1], dates[p - 1].as_str());
                    proof {
                        lemma_report_before_total(files@, i as int, idx@[p - 1] as int);
                    }
                    if !before {
                        break;
                    }
                    p = p - 1;
                }
                let ghost old_idx = idx@;
                let ghost old_dates = dates@;
                proof {
                    assert forall|k: int| 0 <= k < p implies report_before(files@, #[trigger] old_idx[k] as int, i as int) by {
                        if k < p - 1 {
                            assert(report_before(files@, old_idx[k] as int, old_idx[p - 1] as int));
                            lemma_report_before_trans(files@, old_idx[k] as int, old_idx[p - 1] as int, i as int);
                        }
                    }
                }
                idx.insert(p, i);
                dates.insert(p, d);
                proof {
                    assert(idx@ =~= old_idx.subrange(0, p as int).push(i) + old_idx.subrange(p as int, old_idx.len() as int));
                    assert(dates@ =~= old_dates.subrange(0, p as int).push(dates@[p as int]) + old_dates.subrange(p as int, old_dates.len() as int));
                    assert forall|k: int, l: int|
                        0 <= k < l < idx@.len() implies report_before(files@, #[trigger] idx@[k] as int, #[trigger] idx@[l] as int) by {
                        if l < p {
                            assert(idx@[k] == old_idx[k]);
                            assert(idx@[l] == old_idx[l]);
                            assert(report_before(files@, old_idx[k] as int, old_idx[l] as int));
                        } else if k < p && l == p {
                            assert(idx@[k] == old_idx[k]);
                            assert(report_before(files@, old_idx[k] as int, i as int));
                        } else if k < p && l > p {
                            assert(idx@[k] == old_idx[k]);
                            assert(idx@[l] == old_idx[l - 1]);
                            assert(report_before(files@, old_idx[k] as int, old_idx[l - 1] as int));
                        } else if k == p && l > p {
                            assert(idx@[l] == old_idx[l - 1]);
                            assert(report_before(files@, i as int, old_idx[l - 1] as int));
                        } else {
                            assert(idx@[k] == old_idx[k - 1]);
                            assert(idx@[l] == old_idx[l - 1]);
                            assert(report_before(files@, old_idx[k - 1] as int, old_idx[l - 1] as int));
                        }
                    }
                    assert forall|k: int| 0 <= k < idx@.len() implies first_date(files@[#[trigger] idx@[k] as int].stem->0@)
                        == Some(dates@[k]@) by {
                        if k < p {
                        } else if k > p {
                            assert(idx@[k] == old_idx[k - 1]);
                            assert(dates@[k] == old_dates[k - 1]);
                        }
                    }
                    assert forall|j: int| 0 <= j <= i && is_daily_report(files@[j]) implies idx@.contains(j as usize) by {
                        if j == i {
                            assert(idx@[p as int] == i);
                        } else {
                            assert(old_idx.contains(j as usize));
                            let k = choose|k: int| 0 <= k < old_idx.len() && old_idx[k] == j as usize;
                            if k < p {
                                assert(idx@[k] == j as usize);
                            } else {
                                assert(idx@[k + 1] == j as usize);
                            }
                        }
                    }
                }
            },
        }
        i = i + 1;
    }
    idx
}

proof fn lemma_report_before_total(fs: Seq<ReportFile>, a: int, b: int)
    requires
        a != b,
    ensures
        report_before(fs, a, b) || report_before(fs, b, a),
        !(report_before(fs, a, b) && report_before(fs, b, a)),
{
    let da = first_date(fs[a].stem->0@)->0;
    let db = first_date(fs[b].stem->0@)->0;
    crate::order::lemma_lex_order(da, db, da);
    crate::order::lemma_lex_order(fs[a].name@, fs[b].name@, fs[a].name@);
}

proof fn lemma_report_before_trans(fs: Seq<ReportFile>, a: int, b: int, c: int)
    requires
        report_before(fs, a, b),
        report_before(fs, b, c),
    ensures
        report_before(fs, a, c),
{
    let da = first_date(fs[a].stem->0@)->0;
    let db = first_date(fs[b].stem->0@)->0;
    let dc = first_date(fs[c].stem->0@)->0;
    crate::order::lemma_lex_order(da, db, dc);
    crate::order::lemma_lex_order(fs[a].name@, fs[b].name@, fs[c].name@);
}

} // verus!
