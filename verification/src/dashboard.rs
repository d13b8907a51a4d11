//! The decisions of the ledger dashboard: what a key press does, which lines
//! describe the selected report, and the per-report figures it charts.
use vstd::prelude::*;
use crate::ledger::{entry_views, EntryView, Ledger};
use crate::report::{PointView, UnclearPoint};
use crate::order::{lemma_lex_order, lex_lt, str_eq, str_less, views};
use crate::text::push_str;

verus! {

/// A key press, as the dashboard reads it: quit (`q`, Esc, Ctrl-C), move down
/// (Down, `j`), move up (Up, `k`), or anything else.
#[derive(Clone, Copy, Debug, PartialEq, Eq, Structural)]
pub enum KeyInput {
    Quit,
    Down,
    Up,
    Other,
}

/// The selection after a key press among `count` reports, and whether the
/// dashboard closes: with no reports any key closes it; down stops at the last
/// report and up at the first.
pub open spec fn step(selected: int, count: int, key: KeyInput) -> (int, bool) {
    if count == 0 {
        (selected, true)
    } else {
        match key {
            KeyInput::Quit => (selected, true),
            KeyInput::Down => if selected + 1 < count {
                (selected + 1, false)
            } else {
                (selected, false)
            },
            KeyInput::Up => if selected > 0 {
                (selected - 1, false)
            } else {
                (0, false)
            },
            KeyInput::Other => (selected, false),
        }
    }
}

/// Handles one key press: the new selection and whether to close.
pub fn tui_step(selected: usize, count: usize, key: KeyInput) -> (r: (usize, bool))
    ensures
        (r.0 as int, r.1) == step(selected as int, count as int, key),
{
    if count == 0 {
        return (selected, true);
    }
    match key {
        KeyInput::Quit => (selected, true),
        KeyInput::Down => if selected < count - 1 {
            (selected + 1, false)
        } else {
            (selected, false)
        },
        KeyInput::Up => if selected > 0 {
            (selected - 1, false)
        } else {
            (0, false)
        },
        KeyInput::Other => (selected, false),
    }
}

/// A selection on a report stays on a report, whatever key is pressed.
pub proof fn lemma_step_stays_in_range(selected: int, count: int, key: KeyInput)
    requires
        0 <= selected < count,
    ensures
        0 <= step(selected, count, key).0 < count,
{
}

/// What a line of the detail pane shows.
#[derive(Clone, Copy, Debug, PartialEq, Eq, Structural)]
pub enum DetailKind {
    /// The selected report has no unclear points.
    NoPoints,
    /// The empty line between two points.
    Gap,
    Issue,
    Cause,
    Rule,
}

/// The lines of one point: a gap before every point but the first, the issue,
/// then the cause and the rule when they are not empty.
pub open spec fn point_lines(p: PointView, first: bool) -> Seq<(DetailKind, Seq<char>)> {
    (if first {
        Seq::empty()
    } else {
        seq![(DetailKind::Gap, Seq::<char>::empty())]
    }) + seq![(DetailKind::Issue, p.issue)] + (if p.cause.len() > 0 {
        seq![(DetailKind::Cause, p.cause)]
    } else {
        Seq::empty()
    }) + (if p.rule.len() > 0 {
        seq![(DetailKind::Rule, p.rule)]
    } else {
        Seq::empty()
    })
}

/// The lines of a list of points, in order.
pub open spec fn points_lines(ps: Seq<PointView>) -> Seq<(DetailKind, Seq<char>)>
    decreases ps.len(),
{
    if ps.len() == 0 {
        Seq::empty()
    } else {
        points_lines(ps.drop_last()) + point_lines(ps.last(), ps.len() == 1)
    }
}

/// The detail pane for `selected`: the selected report (the last one when the
/// selection is past it), its points' lines, or `（詰まりなし）` when it has
/// none; nothing when there are no reports.
pub open spec fn detail(reports: Seq<EntryView>, selected: int) -> Seq<(DetailKind, Seq<char>)> {
    if reports.len() == 0 {
        Seq::empty()
    } else {
        let idx = if selected < reports.len() - 1 {
            selected
        } else {
            reports.len() - 1
        };
        let e = reports[idx];
        if e.points.len() == 0 {
            seq![(DetailKind::NoPoints, "（詰まりなし）"@)]
        } else {
            points_lines(e.points)
        }
    }
}

/// The text of the detail lines.
pub open spec fn lines_view(v: Seq<(DetailKind, String)>) -> Seq<(DetailKind, Seq<char>)> {
    v.map_values(|p: (DetailKind, String)| (p.0, p.1@))
}

fn copy_text(s: &String) -> (r: String)
    ensures
        r@ == s@,
{
    let mut r = String::new();
    push_str(&mut r, s.as_str());
    r
}

fn push_line(out: &mut Vec<(DetailKind, String)>, kind: DetailKind, text: String)
    ensures
        lines_view(final(out)@) == lines_view(old(out)@).push((kind, text@)),
{
    out.push((kind, text));
    assert(lines_view(out@) =~= lines_view(old(out)@).push((kind, text@)));
}

fn push_point_lines(out: &mut Vec<(DetailKind, String)>, p: &UnclearPoint, first: bool)
    ensures
        lines_view(final(out)@) == lines_view(old(out)@) + point_lines(p@, first),
{
    let ghost start = lines_view(out@);
    if !first {
        push_line(out, DetailKind::Gap, String::new());
    }
    push_line(out, DetailKind::Issue, copy_text(&p.issue));
    if !p.cause.as_str().is_empty() {
        push_line(out, DetailKind::Cause, copy_text(&p.cause));
    }
    if !p.rule.as_str().is_empty() {
        push_line(out, DetailKind::Rule, copy_text(&p.rule));
    }
    assert(lines_view(out@) =~= start + point_lines(p@, first));
}

/// The lines of the detail pane for the selected report.
pub fn detail_lines(ledger: &Ledger, selected: usize) -> (r: Vec<(DetailKind, String)>)
    ensures
        lines_view(r@) == detail(entry_views(ledger.reports@), selected as int),
{
    let mut out: Vec<(DetailKind, String)> = Vec::new();
    let n = ledger.reports.len();
    if n == 0 {
        assert(lines_view(out@) =~= Seq::<(DetailKind, Seq<char>)>::empty());
        return out;
    }
    let idx = if selected < n - 1 {
        selected
    } else {
        n - 1
    };
    let entry = &ledger.reports[idx];
    let ghost ev = entry_views(ledger.reports@)[idx as int];
    assert(ev == entry@);
    if entry.points.len() == 0 {
        let mut s = String::new();
        push_str(&mut s, "（詰まりなし）");
        push_line(&mut out, DetailKind::NoPoints, s);
        assert(lines_view(out@) =~= seq![(DetailKind::NoPoints, "（詰まりなし）"@)]);
        return out;
    }
    let points = &entry.points;
    let ghost pv = ev.points;
    assert(pv == crate::report::point_views(points@));
    let mut i: usize = 0;
    assert(pv.take(0) =~= Seq::<PointView>::empty());
    assert(lines_view(out@) =~= Seq::<(DetailKind, Seq<char>)>::empty());
    while i < points.len()
        invariant
            i <= points.len(),
            pv == crate::report::point_views(points@),
            lines_view(out@) == points_lines(pv.take(i as int)),
        decreases points.len() - i,
    {
        push_point_lines(&mut out, &points[i], i == 0);
        assert(pv.take(i + 1).drop_last() =~= pv.take(i as int));
        assert(pv.take(i + 1).last() == points[i as int]@);
        i = i + 1;
    }
    assert(pv.take(points.len() as int) =~= pv);
    out
}

/// The number of rules each report saw first, oldest report first.
pub fn new_rule_series(ledger: &Ledger) -> (r: Vec<u64>)
    ensures
        r.len() == ledger.reports.len(),
        forall|i: int| 0 <= i < r.len() ==> r[i] == ledger.reports[i].new_rules.len(),
{
    let mut out: Vec<u64> = Vec::new();
    let mut i: usize = 0;
    while i < ledger.reports.len()
        invariant
            i <= ledger.reports.len(),
            out.len() == i,
            forall|j: int| 0 <= j < i ==> out[j] == ledger.reports[j].new_rules.len(),
        decreases ledger.reports.len() - i,
    {
        out.push(ledger.reports[i].new_rules.len() as u64);
        i = i + 1;
    }
    out
}

/// Every rule that the reports saw again, report after report.
pub open spec fn all_reseen(reports: Seq<EntryView>) -> Seq<Seq<char>>
    decreases reports.len(),
{
    if reports.len() == 0 {
        Seq::empty()
    } else {
        all_reseen(reports.drop_last()) + reports.last().reseen_rules
    }
}

/// How many times `k` occurs in `s`.
pub open spec fn occurrences(s: Seq<Seq<char>>, k: Seq<char>) -> nat
    decreases s.len(),
{
    if s.len() == 0 {
        0
    } else {
        occurrences(s.drop_last(), k) + if s.last() == k {
            1nat
        } else {
            0nat
        }
    }
}

proof fn lemma_occurrences_bound(s: Seq<Seq<char>>, k: Seq<char>)
    ensures
        occurrences(s, k) <= s.len(),
    decreases s.len(),
{
    if s.len() > 0 {
        lemma_occurrences_bound(s.drop_last(), k);
    }
}

/// `a` is listed before `b`: re-seen more often, or as often and earlier in
/// lexicographic order.
pub open spec fn ranks_before(a: (Seq<char>, nat), b: (Seq<char>, nat)) -> bool {
    a.1 > b.1 || (a.1 == b.1 && lex_lt(a.0, b.0))
}

proof fn lemma_ranks_order(a: (Seq<char>, nat), b: (Seq<char>, nat), c: (Seq<char>, nat))
    ensures
        !ranks_before(a, a),
        ranks_before(a, b) && ranks_before(b, c) ==> ranks_before(a, c),
        a.0 != b.0 ==> ranks_before(a, b) || ranks_before(b, a),
{
    lemma_lex_order(a.0, b.0, c.0);
}

/// `r` lists the rules re-seen in `s`: each rule that occurs once with the
/// number of its occurrences, most frequent first, ties in lexicographic
/// order.
pub open spec fn is_recurring(s: Seq<Seq<char>>, r: Seq<(Seq<char>, nat)>) -> bool {
    &&& forall|i: int| 0 <= i < r.len() ==> r[i].1 == occurrences(s, r[i].0) && r[i].1 > 0
    &&& forall|k: Seq<char>|
        occurrences(s, k) > 0 ==> exists|i: int| 0 <= i < r.len() && #[trigger] r[i].0 == k
    &&& forall|i: int, j: int| 0 <= i < j < r.len() ==> ranks_before(#[trigger] r[i], #[trigger] r[j])
}

/// The text and counts of a recurring-rule list.
pub open spec fn counts_view(v: Seq<(String, usize)>) -> Seq<(Seq<char>, nat)> {
    v.map_values(|p: (String, usize)| (p.0@, p.1 as nat))
}

fn reseen_in_order(ledger: &Ledger) -> (r: Vec<String>)
    ensures
        views(r@) == all_reseen(entry_views(ledger.reports@)),
{
    let ghost ev = entry_views(ledger.reports@);
    let mut out: Vec<String> = Vec::new();
    let mut i: usize = 0;
    assert(ev.take(0) =~= Seq::<EntryView>::empty());
    assert(views(out@) =~= Seq::<Seq<char>>::empty());
    while i < ledger.reports.len()
        invariant
            i <= ledger.reports.len(),
            ev == entry_views(ledger.reports@),
            views(out@) == all_reseen(ev.take(i as int)),
        decreases ledger.reports.len() - i,
    {
        let rules = &ledger.reports[i].reseen_rules;
        let ghost base = views(out@);
        let ghost rv = views(rules@);
        assert(ev[i as int].reseen_rules == rv);
        let mut j: usize = 0;
        assert(base + rv.take(0) =~= base);
        while j < rules.len()
            invariant
                j <= rules.len(),
                rv == views(rules@),
                views(out@) == base + rv.take(j as int),
            decreases rules.len() - j,
        {
            let c = copy_text(&rules[j]);
            let ghost prev = views(out@);
            assert(rv[j as int] == rules[j as int]@);
            out.push(c);
            assert(views(out@) =~= prev.push(c@));
            assert(rv.take(j + 1) =~= rv.take(j as int).push(rv[j as int]));
            assert(views(out@) =~= base + rv.take(j + 1));
            j = j + 1;
        }
        assert(rv.take(rules.len() as int) =~= rv);
        assert(ev.take(i + 1).drop_last() =~= ev.take(i as int));
        assert(ev.take(i + 1).last() == ev[i as int]);
        i = i + 1;
    }
    assert(ev.take(ledger.reports.len() as int) =~= ev);
    out
}

fn tally(flat: &Vec<String>) -> (r: (Vec<String>, Vec<usize>))
    ensures
        r.0.len() == r.1.len(),
        forall|a: int, b: int| 0 <= a < b < r.0.len() ==> r.0[a]@ != r.0[b]@,
        forall|a: int|
            0 <= a < r.0.len() ==> r.1[a] == occurrences(views(flat@), r.0[a]@) && r.1[a] > 0,
        forall|k: Seq<char>|
            occurrences(views(flat@), k) > 0 ==> exists|a: int| 0 <= a < r.0.len() && r.0[a]@ == k,
{
    let ghost fv = views(flat@);
    let mut keys: Vec<String> = Vec::new();
    let mut counts: Vec<usize> = Vec::new();
    let mut i: usize = 0;
    while i < flat.len()
        invariant
            i <= flat.len(),
            fv == views(flat@),
            keys.len() == counts.len(),
            forall|a: int, b: int| 0 <= a < b < keys.len() ==> keys[a]@ != keys[b]@,
            forall|a: int|
                0 <= a < keys.len() ==> counts[a] == occurrences(fv.take(i as int), keys[a]@)
                    && counts[a] > 0,
            forall|k: Seq<char>|
                occurrences(fv.take(i as int), k) > 0 ==> exists|a: int|
                    0 <= a < keys.len() && keys[a]@ == k,
        decreases flat.len() - i,
    {
        let x = &flat[i];
        let ghost xv = x@;
        let ghost before = fv.take(i as int);
        let ghost after = fv.take(i + 1);
        assert(after.drop_last() =~= before);
        assert(after.last() == xv);
        assert(forall|k: Seq<char>| #[trigger]
            occurrences(after, k) == occurrences(before, k) + if xv == k {
                1nat
            } else {
                0nat
            });
        let mut found = false;
        let mut j: usize = 0;
        while j < keys.len() && !found
            invariant
                j <= keys.len(),
                xv == x@,
                found ==> j < keys.len() && keys[j as int]@ == xv,
                !found ==> forall|a: int| 0 <= a < j ==> keys[a]@ != xv,
            decreases keys.len() - j, if found { 0int } else { 1int },
        {
            if str_eq(keys[j].as_str(), x.as_str()) {
                found = true;
            } else {
                j = j + 1;
            }
        }
        let ghost old_keys = keys@;
        if found {
            proof {
                lemma_occurrences_bound(before, xv);
            }
            let c = counts[j] + 1;
            counts.set(j, c);
        } else {
            let k = copy_text(x);
            keys.push(k);
            counts.push(1);
        }
        proof {
            assert forall|k: Seq<char>| occurrences(after, k) > 0 implies exists|a: int|
                0 <= a < keys.len() && keys[a]@ == k by {
                if k == xv {
                    if found {
                        assert(keys[j as int]@ == k);
                    } else {
                        assert(keys[old_keys.len() as int]@ == k);
                    }
                } else {
                    assert(occurrences(before, k) > 0);
                    let a = choose|a: int| 0 <= a < old_keys.len() && old_keys[a]@ == k;
                    assert(keys[a]@ == k);
                }
            }
        }
        i = i + 1;
    }
    assert(fv.take(flat.len() as int) =~= fv);
    (keys, counts)
}

fn ranks_first(a: &(String, usize), b: &(String, usize)) -> (r: bool)
    ensures
        r == ranks_before((a.0@, a.1 as nat), (b.0@, b.1 as nat)),
{
    a.1 > b.1 || (a.1 == b.1 && str_less(a.0.as_str(), b.0.as_str()))
}

/// The rules that reports saw again, each with the number of times it was
/// re-seen, most frequent first and ties in lexicographic order.
pub fn recurring_rules(ledger: &Ledger) -> (r: Vec<(String, usize)>)
    ensures
        is_recurring(all_reseen(entry_views(ledger.reports@)), counts_view(r@)),
{
    let flat = reseen_in_order(ledger);
    let (keys, counts) = tally(&flat);
    let ghost fv = views(flat@);
    let ghost pv = Seq::new(keys.len() as nat, |a: int| (keys[a]@, counts[a] as nat));
    let mut out: Vec<(String, usize)> = Vec::new();
    let mut i: usize = 0;
    assert(counts_view(out@).to_set() =~= pv.take(0).to_set());
    while i < keys.len()
        invariant
            i <= keys.len(),
            keys.len() == counts.len(),
            pv == Seq::new(keys.len() as nat, |a: int| (keys[a]@, counts[a] as nat)),
            forall|a: int, b: int| 0 <= a < b < keys.len() ==> keys[a]@ != keys[b]@,
            forall|a: int, b: int|
                0 <= a < b < out.len() ==> ranks_before(
                    #[trigger] counts_view(out@)[a],
                    #[trigger] counts_view(out@)[b],
                ),
            counts_view(out@).to_set() == pv.take(i as int).to_set(),
        decreases keys.len() - i,
    {
        let x = (copy_text(&keys[i]), counts[i]);
        let ghost xv = (x.0@, x.1 as nat);
        assert(xv == pv[i as int]);
        let ghost ov = counts_view(out@);
        let mut p: usize = 0;
        let mut placed = false;
        while p < out.len() && !placed
            invariant
                p <= out.len(),
                ov == counts_view(out@),
                xv == (x.0@, x.1 as nat),
                forall|a: int| 0 <= a < p ==> ranks_before(ov[a], xv),
                placed ==> p < out.len() && !ranks_before(ov[p as int], xv),
            decreases out.len() - p, if placed { 0int } else { 1int },
        {
            if ranks_first(&out[p], &x) {
                p = p + 1;
            } else {
                placed = true;
            }
        }
        proof {
            // every listed entry comes from an earlier key, so its key differs from x's
            assert forall|a: int| 0 <= a < ov.len() implies #[trigger] ov[a].0 != xv.0 by {
                assert(ov.to_set().contains(ov[a]));
                assert(pv.take(i as int).to_set().contains(ov[a]));
                let c = choose|c: int| 0 <= c < i && pv.take(i as int)[c] == ov[a];
                assert(pv[c] == ov[a]);
            }
            if p < ov.len() {
                lemma_ranks_order(ov[p as int], xv, xv);
                assert forall|b: int| p <= b < ov.len() implies ranks_before(xv, #[trigger] ov[b]) by {
                    lemma_ranks_order(xv, ov[p as int], ov[b]);
                }
            }
        }
        out.insert(p, x);
        proof {
            let nv = counts_view(out@);
            assert(nv =~= ov.insert(p as int, xv));
            ov.insert_ensures(p as int, xv);
            assert forall|a: int, b: int| 0 <= a < b < nv.len() implies ranks_before(
                #[trigger] nv[a],
                #[trigger] nv[b],
            ) by {
                if b < p {
                } else if b == p {
                } else if a < p {
                    lemma_ranks_order(nv[a], xv, nv[b]);
                } else if a == p {
                } else {
                    assert(nv[a] == ov[a - 1]);
                    assert(nv[b] == ov[b - 1]);
                }
            }
            assert forall|e: (Seq<char>, nat)| nv.to_set().contains(e) == pv.take(i + 1).to_set().contains(e) by {
                let t = pv.take(i as int);
                assert(ov.to_set().contains(e) == t.to_set().contains(e));
                assert(pv.take(i + 1) =~= t.push(xv));
                if nv.contains(e) {
                    let a = choose|a: int| 0 <= a < nv.len() && nv[a] == e;
                    if a < p {
                        assert(ov[a] == e);
                        assert(ov.contains(e));
                    } else if a > p {
                        assert(ov[a - 1] == e);
                        assert(ov.contains(e));
                    }
                }
                if ov.contains(e) {
                    let a = choose|a: int| 0 <= a < ov.len() && ov[a] == e;
                    if a < p {
                        assert(nv[a] == e);
                    } else {
                        assert(nv[a + 1] == e);
                    }
                    assert(nv.contains(e));
                }
                if e == xv {
                    assert(nv[p as int] == e);
                    assert(nv.contains(e));
                }
                if t.push(xv).contains(e) {
                    let a = choose|a: int| 0 <= a < t.len() + 1 && t.push(xv)[a] == e;
                    if a < t.len() {
                        assert(t[a] == e);
                        assert(t.contains(e));
                    }
                }
                if t.contains(e) {
                    let a = choose|a: int| 0 <= a < t.len() && t[a] == e;
                    assert(t.push(xv)[a] == e);
                    assert(t.push(xv).contains(e));
                }
                assert(t.push(xv)[t.len() as int] == xv);
            }
            assert(nv.to_set() =~= pv.take(i + 1).to_set());
        }
        i = i + 1;
    }
    proof {
        let rv = counts_view(out@);
        let s = all_reseen(entry_views(ledger.reports@));
        assert(pv.take(keys.len() as int) =~= pv);
        assert forall|a: int| 0 <= a < rv.len() implies rv[a].1 == occurrences(s, rv[a].0) && rv[a].1 > 0 by {
            assert(rv.to_set().contains(rv[a]));
            let c = choose|c: int| 0 <= c < pv.len() && pv[c] == rv[a];
        }
        assert forall|k: Seq<char>| occurrences(s, k) > 0 implies exists|a: int|
            0 <= a < rv.len() && #[trigger] rv[a].0 == k by {
            let c = choose|c: int| 0 <= c < keys.len() && keys[c]@ == k;
            assert(pv.contains(pv[c]));
            assert(rv.to_set().contains(pv[c]));
            let a = choose|a: int| 0 <= a < rv.len() && rv[a] == pv[c];
            assert(rv[a].0 == k);
        }
    }
    out
}

/// The detail pane shows the selected report: for a selection on a report it
/// is that report's pane, and past the last report it is the last report's.
pub proof fn lemma_detail_shows_selected(reports: Seq<EntryView>, selected: int)
    requires
        0 <= selected,
        reports.len() > 0,
    ensures
        selected < reports.len() ==> detail(reports, selected) == detail(seq![reports[selected]], 0),
        selected >= reports.len() ==> detail(reports, selected) == detail(
            seq![reports[reports.len() - 1]],
            0,
        ),
{
}

/// Moving down and then up (or up and then down) among the reports comes back
/// to the same report, away from the ends; only a quit key or an empty ledger
/// closes the dashboard.
pub proof fn lemma_step_moves(selected: int, count: int, key: KeyInput)
    requires
        0 <= selected < count,
    ensures
        selected + 1 < count ==> step(step(selected, count, KeyInput::Down).0, count, KeyInput::Up).0
            == selected,
        selected > 0 ==> step(step(selected, count, KeyInput::Up).0, count, KeyInput::Down).0
            == selected,
        step(selected, count, key).1 <==> key == KeyInput::Quit,
        key != KeyInput::Quit ==> -1 <= step(selected, count, key).0 - selected <= 1,
{
}

proof fn lemma_point_lines_members(p: PointView, first: bool)
    ensures
        point_lines(p, first).contains((DetailKind::Issue, p.issue)),
        p.cause.len() > 0 <==> point_lines(p, first).contains((DetailKind::Cause, p.cause)),
        p.rule.len() > 0 ==> point_lines(p, first).contains((DetailKind::Rule, p.rule)),
{
    let g = if first {
        Seq::<(DetailKind, Seq<char>)>::empty()
    } else {
        seq![(DetailKind::Gap, Seq::<char>::empty())]
    };
    let c = if p.cause.len() > 0 {
        seq![(DetailKind::Cause, p.cause)]
    } else {
        Seq::<(DetailKind, Seq<char>)>::empty()
    };
    let r = if p.rule.len() > 0 {
        seq![(DetailKind::Rule, p.rule)]
    } else {
        Seq::<(DetailKind, Seq<char>)>::empty()
    };
    let all = g + seq![(DetailKind::Issue, p.issue)] + c + r;
    assert(all == point_lines(p, first));
    assert(all[g.len() as int] == (DetailKind::Issue, p.issue));
    if p.cause.len() > 0 {
        assert(all[g.len() as int + 1] == (DetailKind::Cause, p.cause));
    } else if all.contains((DetailKind::Cause, p.cause)) {
        let k = choose|k: int| 0 <= k < all.len() && all[k] == (DetailKind::Cause, p.cause);
        if k >= g.len() + 1 {
            assert(all[k] == r[k - g.len() - 1]);
        }
    }
    if p.rule.len() > 0 {
        assert(all[all.len() - 1] == (DetailKind::Rule, p.rule));
    }
}

/// Every point of the selected report shows its issue, its cause when it has
/// one and its rule when it has one.
pub proof fn lemma_points_lines_show_points(ps: Seq<PointView>, k: int)
    requires
        0 <= k < ps.len(),
    ensures
        points_lines(ps).contains((DetailKind::Issue, ps[k].issue)),
        ps[k].cause.len() > 0 ==> points_lines(ps).contains((DetailKind::Cause, ps[k].cause)),
        ps[k].rule.len() > 0 ==> points_lines(ps).contains((DetailKind::Rule, ps[k].rule)),
    decreases ps.len(),
{
    let init = ps.drop_last();
    let tail = point_lines(ps.last(), ps.len() == 1);
    let all = points_lines(init) + tail;
    assert(points_lines(ps) == all);
    if k < ps.len() - 1 {
        assert(ps[k] == init[k]);
        lemma_points_lines_show_points(init, k);
        let a = points_lines(init);
        assert forall|x: (DetailKind, Seq<char>)| a.contains(x) implies all.contains(x) by {
            let j = choose|j: int| 0 <= j < a.len() && a[j] == x;
            assert(all[j] == x);
        }
    } else {
        lemma_point_lines_members(ps.last(), ps.len() == 1);
        let a = points_lines(init);
        assert forall|x: (DetailKind, Seq<char>)| tail.contains(x) implies all.contains(x) by {
            let j = choose|j: int| 0 <= j < tail.len() && tail[j] == x;
            assert(all[a.len() + j] == x);
        }
    }
}

} // verus!
