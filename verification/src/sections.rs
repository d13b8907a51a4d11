//! Reading the structure of a Markdown report line by line: headings,
//! labeled bullets, subsections and pipe tables.
use vstd::prelude::*;
use crate::text::{
    chars_of, escape, find_char, has_prefix, lines, lines_from, next_line, push_chars, push_escaped,
    same_chars, split_from, split_on, split_once, starts_with, string_of, strip_char, strip_markup,
    stripped_char, trim, trim_start, trimmed, trimmed_start, without_markup, char_index,
    lemma_char_index_bounds, is_digit,
};

verus! {

// ---------------------------------------------------------------------------
// Lines of a document
// ---------------------------------------------------------------------------

/// The character views of a list of lines.
pub open spec fn line_views(v: Seq<Vec<char>>) -> Seq<Seq<char>> {
    v.map_values(|l: Vec<char>| l@)
}

/// The lines of `s`, as `str::lines` splits them.
pub fn lines_of(s: &[char]) -> (ls: Vec<Vec<char>>)
    ensures
        line_views(ls@) == lines(s@),
{
    let mut ls: Vec<Vec<char>> = Vec::new();
    let n = s.len();
    let mut i: usize = 0;
    assert(line_views(ls@) + lines_from(s@, 0) =~= lines(s@));
    while i < n
        invariant
            i <= n == s@.len(),
            line_views(ls@) + lines_from(s@, i as int) == lines(s@),
        decreases n - i,
    {
        let (ce, next) = next_line(s, i);
        let mut line: Vec<char> = Vec::new();
        push_slice(&mut line, &s[i..ce]);
        ls.push(line);
        assert(line_views(ls@) =~= line_views(ls@.drop_last()).push(s@.subrange(i as int, ce as int)));
        assert(line_views(ls@) + lines_from(s@, next as int) =~= lines(s@));
        i = next;
    }
    assert(lines_from(s@, n as int) =~= Seq::<Seq<char>>::empty());
    assert(line_views(ls@) + Seq::<Seq<char>>::empty() =~= line_views(ls@));
    ls
}

/// Appends the characters of `v` to `out`.
fn push_slice(out: &mut Vec<char>, v: &[char])
    ensures
        final(out)@ == old(out)@ + v@,
{
    let mut i: usize = 0;
    while i < v.len()
        invariant
            i <= v@.len(),
            out@ == old(out)@ + v@.subrange(0, i as int),
        decreases v.len() - i,
    {
        out.push(v[i]);
        i = i + 1;
        assert(v@.subrange(0, i as int) =~= v@.subrange(0, i - 1).push(v@[i - 1]));
    }
    assert(v@.subrange(0, v@.len() as int) =~= v@);
}

/// The first line at or after `i` whose trimmed text is `h`.
pub open spec fn find_heading(ls: Seq<Seq<char>>, h: Seq<char>, i: int) -> Option<int>
    decreases ls.len() - i,
{
    if i < 0 || i >= ls.len() {
        None
    } else if trim(ls[i]) == h {
        Some(i)
    } else {
        find_heading(ls, h, i + 1)
    }
}

proof fn lemma_find_heading_bounds(ls: Seq<Seq<char>>, h: Seq<char>, i: int)
    requires
        0 <= i,
    ensures
        find_heading(ls, h, i) matches Some(k) ==> i <= k < ls.len() && trim(ls[k]) == h,
    decreases ls.len() - i,
{
    if i < ls.len() && trim(ls[i]) != h {
        lemma_find_heading_bounds(ls, h, i + 1);
    }
}

/// The first line whose trimmed text is `h`.
fn heading_line(ls: &[Vec<char>], h: &[char]) -> (r: Option<usize>)
    ensures
        match r {
            Some(k) => find_heading(line_views(ls@), h@, 0) == Some(k as int) && k < ls@.len(),
            None => find_heading(line_views(ls@), h@, 0) is None,
        },
{
    proof {
        lemma_find_heading_bounds(line_views(ls@), h@, 0);
    }
    let mut i: usize = 0;
    while i < ls.len()
        invariant
            i <= ls@.len(),
            find_heading(line_views(ls@), h@, i as int) == find_heading(line_views(ls@), h@, 0),
        decreases ls.len() - i,
    {
        assert(line_views(ls@)[i as int] == ls@[i as int]@);
        if same_chars(trimmed(ls[i].as_slice()), h) {
            return Some(i);
        }
        i = i + 1;
    }
    None
}

/// `## ` followed by `h`.
pub open spec fn h2_of(h: Seq<char>) -> Seq<char> {
    seq!['#', '#', ' '] + h
}

/// `## ` followed by the characters of `heading`.
fn h2_chars(heading: &str) -> (v: Vec<char>)
    ensures
        v@ == h2_of(heading@),
{
    let mut v: Vec<char> = vec!['#', '#', ' '];
    let h = chars_of(heading);
    push_slice(&mut v, h.as_slice());
    v
}

/// A test that decides whether a line continues a run of lines.
#[derive(Clone, Copy)]
pub enum LineTest {
    /// The line does not start with `#`.
    NoHash,
    /// The line does not start with `## `.
    NoSectionHeading,
    /// The line, without leading whitespace, does not start with `#`.
    NoIndentedHash,
    /// The line, without leading whitespace, does not start with `|`.
    NoIndentedPipe,
    /// The line, without leading whitespace, starts with `|`.
    IndentedPipe,
}

/// Whether `l` passes `t`.
pub open spec fn passes(t: LineTest, l: Seq<char>) -> bool {
    match t {
        LineTest::NoHash => !starts_with(l, seq!['#']),
        LineTest::NoSectionHeading => !starts_with(l, seq!['#', '#', ' ']),
        LineTest::NoIndentedHash => !starts_with(trim_start(l), seq!['#']),
        LineTest::NoIndentedPipe => !starts_with(trim_start(l), seq!['|']),
        LineTest::IndentedPipe => starts_with(trim_start(l), seq!['|']),
    }
}

fn line_passes(t: LineTest, l: &[char]) -> (b: bool)
    ensures
        b == passes(t, l@),
{
    match t {
        LineTest::NoHash => {
            let p: Vec<char> = vec!['#'];
            assert(p@ =~= seq!['#']);
            !has_prefix(l, p.as_slice())
        },
        LineTest::NoSectionHeading => {
            let p: Vec<char> = vec!['#', '#', ' '];
            assert(p@ =~= seq!['#', '#', ' ']);
            !has_prefix(l, p.as_slice())
        },
        LineTest::NoIndentedHash => {
            let p: Vec<char> = vec!['#'];
            assert(p@ =~= seq!['#']);
            !has_prefix(trimmed_start(l), p.as_slice())
        },
        LineTest::NoIndentedPipe => {
            let p: Vec<char> = vec!['|'];
            assert(p@ =~= seq!['|']);
            !has_prefix(trimmed_start(l), p.as_slice())
        },
        LineTest::IndentedPipe => {
            let p: Vec<char> = vec!['|'];
            assert(p@ =~= seq!['|']);
            has_prefix(trimmed_start(l), p.as_slice())
        },
    }
}

/// The end of the run of lines passing `t` that starts at `i`.
pub open spec fn run_end(ls: Seq<Seq<char>>, i: int, t: LineTest) -> int
    decreases ls.len() - i,
{
    if i < 0 || i >= ls.len() {
        if i < 0 { 0 } else { ls.len() as int }
    } else if passes(t, ls[i]) {
        run_end(ls, i + 1, t)
    } else {
        i
    }
}

proof fn lemma_run_end_bounds(ls: Seq<Seq<char>>, i: int, t: LineTest)
    requires
        0 <= i <= ls.len(),
    ensures
        i <= run_end(ls, i, t) <= ls.len(),
    decreases ls.len() - i,
{
    if i < ls.len() && passes(t, ls[i]) {
        lemma_run_end_bounds(ls, i + 1, t);
    }
}

/// Where the run of lines passing `t` from `i` ends.
fn run_end_at(ls: &[Vec<char>], i: usize, t: LineTest) -> (e: usize)
    requires
        i <= ls@.len(),
    ensures
        e == run_end(line_views(ls@), i as int, t),
        i <= e <= ls@.len(),
{
    proof {
        lemma_run_end_bounds(line_views(ls@), i as int, t);
    }
    let mut e: usize = i;
    while e < ls.len() && line_passes(t, ls[e].as_slice())
        invariant
            i <= e <= ls@.len(),
            run_end(line_views(ls@), e as int, t) == run_end(line_views(ls@), i as int, t),
        decreases ls.len() - e,
    {
        e = e + 1;
    }
    e
}

/// The lines after the first line whose trimmed text is `h`, for as long as
/// they pass `t`.
pub open spec fn window_after(ls: Seq<Seq<char>>, h: Seq<char>, t: LineTest) -> Seq<Seq<char>> {
    match find_heading(ls, h, 0) {
        None => Seq::empty(),
        Some(k) => ls.subrange(k + 1, run_end(ls, k + 1, t)),
    }
}

/// Bounds of the window after heading `h` (empty when there is no heading).
fn window_bounds(ls: &[Vec<char>], h: &[char], t: LineTest) -> (r: (usize, usize))
    ensures
        r.0 <= r.1 <= ls@.len(),
        line_views(ls@).subrange(r.0 as int, r.1 as int) == window_after(line_views(ls@), h@, t),
{
    let n = ls.len();
    match heading_line(ls, h) {
        None => {
            assert(line_views(ls@).subrange(0, 0) =~= Seq::<Seq<char>>::empty());
            (0, 0)
        },
        Some(k) => {
            assert(k < n);
            let e = run_end_at(ls, k + 1, t);
            (k + 1, e)
        },
    }
}

// ---------------------------------------------------------------------------
// Titles and headings
// ---------------------------------------------------------------------------

/// The title of the first line at or after `i` that starts with `# `.
pub open spec fn title_from(ls: Seq<Seq<char>>, i: int) -> Option<Seq<char>>
    decreases ls.len() - i,
{
    if i < 0 || i >= ls.len() {
        None
    } else if starts_with(ls[i], seq!['#', ' ']) {
        Some(trim(ls[i].subrange(2, ls[i].len() as int)))
    } else {
        title_from(ls, i + 1)
    }
}

/// The document title: the first line starting with `# `, without that
/// prefix, trimmed.
pub fn document_title(markdown: &str) -> (t: Option<String>)
    ensures
        match t {
            Some(x) => title_from(lines(markdown@), 0) == Some(x@),
            None => title_from(lines(markdown@), 0) is None,
        },
{
    let md = chars_of(markdown);
    let ls = lines_of(md.as_slice());
    let p: Vec<char> = vec!['#', ' '];
    let mut i: usize = 0;
    while i < ls.len()
        invariant
            i <= ls@.len(),
            p@ == seq!['#', ' '],
            line_views(ls@) == lines(markdown@),
            title_from(line_views(ls@), i as int) == title_from(line_views(ls@), 0),
        decreases ls.len() - i,
    {
        let l = ls[i].as_slice();
        assert(line_views(ls@)[i as int] == l@);
        if has_prefix(l, p.as_slice()) {
            return Some(string_of(trimmed(&l[2..l.len()])));
        }
        i = i + 1;
    }
    None
}

/// Whether some line, trimmed, is `## heading`.
pub fn has_section(markdown: &str, heading: &str) -> (b: bool)
    ensures
        b == (find_heading(lines(markdown@), h2_of(heading@), 0) is Some),
{
    let md = chars_of(markdown);
    let ls = lines_of(md.as_slice());
    let h = h2_chars(heading);
    heading_line(ls.as_slice(), h.as_slice()).is_some()
}

/// The headings of the `### ` subsections that follow `## heading`, up to
/// the next line that starts with `## `.
pub open spec fn subheadings(ws: Seq<Seq<char>>) -> Seq<Seq<char>>
    decreases ws.len(),
{
    if ws.len() == 0 {
        Seq::empty()
    } else {
        let l = ws.last();
        if starts_with(l, seq!['#', '#', '#', ' ']) {
            subheadings(ws.drop_last()).push(l.subrange(4, l.len() as int))
        } else {
            subheadings(ws.drop_last())
        }
    }
}

/// The views of a list of strings.
pub open spec fn string_views(v: Seq<String>) -> Seq<Seq<char>> {
    v.map_values(|s: String| s@)
}

/// The `### ` subheadings inside the section `## heading`.
pub fn subheadings_in_section(markdown: &str, heading: &str) -> (r: Vec<String>)
    ensures
        string_views(r@) == subheadings(
            window_after(lines(markdown@), h2_of(heading@), LineTest::NoSectionHeading),
        ),
{
    let md = chars_of(markdown);
    let ls = lines_of(md.as_slice());
    let h = h2_chars(heading);
    let (a, b) = window_bounds(ls.as_slice(), h.as_slice(), LineTest::NoSectionHeading);
    let ghost w = line_views(ls@).subrange(a as int, b as int);
    let p: Vec<char> = vec!['#', '#', '#', ' '];
    let mut out: Vec<String> = Vec::new();
    let mut i: usize = a;
    assert(w.take(0) =~= Seq::<Seq<char>>::empty());
    assert(string_views(out@) =~= Seq::<Seq<char>>::empty());
    while i < b
        invariant
            a <= i <= b <= ls@.len(),
            w == line_views(ls@).subrange(a as int, b as int),
            p@ == seq!['#', '#', '#', ' '],
            string_views(out@) == subheadings(w.take(i - a)),
        decreases b - i,
    {
        let l = ls[i].as_slice();
        assert(w.take(i - a + 1).drop_last() =~= w.take(i - a));
        assert(w.take(i - a + 1).last() == l@);
        if has_prefix(l, p.as_slice()) {
            out.push(string_of(&l[4..l.len()]));
            assert(string_views(out@) =~= subheadings(w.take(i - a + 1)));
        }
        i = i + 1;
    }
    assert(w.take(b - a) =~= w);
    out
}

// ---------------------------------------------------------------------------
// Labeled bullets
// ---------------------------------------------------------------------------

/// `label: value` after a `- ` bullet marker on a trimmed line, split at the
/// first `:`; both sides trimmed, the value without `**` and backquotes, and
/// the label also without outer `*`s when `strip_stars` holds.
pub open spec fn bullet_parts(l: Seq<char>, strip_stars: bool) -> Option<(Seq<char>, Seq<char>)> {
    let t = trim(l);
    if !starts_with(t, seq!['-', ' ']) {
        None
    } else {
        match split_once(t.subrange(2, t.len() as int), ':') {
            None => None,
            Some((a, b)) => Some(
                (
                    if strip_stars {
                        strip_char(trim(a), '*')
                    } else {
                        trim(a)
                    },
                    strip_markup(trim(b)),
                ),
            ),
        }
    }
}

/// The view of a label/value pair of strings.
pub open spec fn pair_view(p: (String, String)) -> (Seq<char>, Seq<char>) {
    (p.0@, p.1@)
}

/// The views of a list of label/value pairs.
pub open spec fn pair_views(v: Seq<(String, String)>) -> Seq<(Seq<char>, Seq<char>)> {
    v.map_values(|p: (String, String)| pair_view(p))
}

/// The label/value pair of a bullet line.
fn bullet_of(l: &[char], strip_stars: bool) -> (r: Option<(String, String)>)
    ensures
        match r {
            Some(p) => bullet_parts(l@, strip_stars) == Some(pair_view(p)),
            None => bullet_parts(l@, strip_stars) is None,
        },
{
    let t = trimmed(l);
    let marker: Vec<char> = vec!['-', ' '];
    if !has_prefix(t, marker.as_slice()) {
        return None;
    }
    let item = &t[2..t.len()];
    let k = find_char(item, ':', 0);
    if k >= item.len() {
        return None;
    }
    proof {
        lemma_char_index_bounds(item@, ':', 0);
    }
    let label_t = trimmed(&item[0..k]);
    let label = if strip_stars {
        string_of(stripped_char(label_t, '*'))
    } else {
        string_of(label_t)
    };
    let value = without_markup(trimmed(&item[k + 1..item.len()]));
    Some((label, string_of(value.as_slice())))
}

/// Parses `- label: value`, trimming both sides, dropping `*` around the label
/// and `**` and backquotes from the value.
pub fn parse_labeled_bullet(line: &str) -> (r: Option<(String, String)>)
    ensures
        match r {
            Some(p) => bullet_parts(line@, true) == Some(pair_view(p)),
            None => bullet_parts(line@, true) is None,
        },
{
    let l = chars_of(line);
    bullet_of(l.as_slice(), true)
}

/// The label/value pairs of the bullet lines among `ws`, labels kept as
/// written (only trimmed).
pub open spec fn labeled_items(ws: Seq<Seq<char>>) -> Seq<(Seq<char>, Seq<char>)>
    decreases ws.len(),
{
    if ws.len() == 0 {
        Seq::empty()
    } else {
        match bullet_parts(ws.last(), false) {
            Some(p) => labeled_items(ws.drop_last()).push(p),
            None => labeled_items(ws.drop_last()),
        }
    }
}

/// The `- label: value` bullets right under `## heading`, up to the next line
/// that starts with `#`.
pub fn labeled_list_in_section(markdown: &str, heading: &str) -> (r: Vec<(String, String)>)
    ensures
        pair_views(r@) == labeled_items(
            window_after(lines(markdown@), h2_of(heading@), LineTest::NoHash),
        ),
{
    let md = chars_of(markdown);
    let ls = lines_of(md.as_slice());
    let h = h2_chars(heading);
    let (a, b) = window_bounds(ls.as_slice(), h.as_slice(), LineTest::NoHash);
    let ghost w = line_views(ls@).subrange(a as int, b as int);
    let mut out: Vec<(String, String)> = Vec::new();
    let mut i: usize = a;
    assert(w.take(0) =~= Seq::<Seq<char>>::empty());
    assert(pair_views(out@) =~= Seq::<(Seq<char>, Seq<char>)>::empty());
    while i < b
        invariant
            a <= i <= b <= ls@.len(),
            w == line_views(ls@).subrange(a as int, b as int),
            pair_views(out@) == labeled_items(w.take(i - a)),
        decreases b - i,
    {
        let l = ls[i].as_slice();
        assert(w.take(i - a + 1).drop_last() =~= w.take(i - a));
        assert(w.take(i - a + 1).last() == l@);
        match bullet_of(l, false) {
            Some(p) => {
                out.push(p);
                assert(pair_views(out@) =~= labeled_items(w.take(i - a + 1)));
            },
            None => {},
        }
        i = i + 1;
    }
    assert(w.take(b - a) =~= w);
    out
}

// ---------------------------------------------------------------------------
// Subsections with labeled fields
// ---------------------------------------------------------------------------

/// A `### ` subsection and the labeled bullets under it.
pub struct ReportSubsection {
    pub heading: String,
    pub fields: Vec<(String, String)>,
}

/// The text of a `ReportSubsection`.
pub struct SubsectionView {
    pub heading: Seq<char>,
    pub fields: Seq<(Seq<char>, Seq<char>)>,
}

impl View for ReportSubsection {
    type V = SubsectionView;

    open spec fn view(&self) -> SubsectionView {
        SubsectionView { heading: self.heading@, fields: pair_views(self.fields@) }
    }
}

/// The views of a list of subsections.
pub open spec fn subsection_views(v: Seq<ReportSubsection>) -> Seq<SubsectionView> {
    v.map_values(|s: ReportSubsection| s@)
}

/// Subsections closed so far, and the one being filled in.
pub type SubAcc = (Seq<SubsectionView>, Option<SubsectionView>);

/// One line applied: `### ` opens a subsection (closing the previous one); a
/// labeled bullet adds a field to the open subsection.
pub open spec fn sub_step(acc: SubAcc, l: Seq<char>) -> SubAcc {
    if starts_with(l, seq!['#', '#', '#', ' ']) {
        (
            match acc.1 {
                Some(s) => acc.0.push(s),
                None => acc.0,
            },
            Some(SubsectionView { heading: l.subrange(4, l.len() as int), fields: Seq::empty() }),
        )
    } else if acc.1 is Some && bullet_parts(l, true) is Some {
        (
            acc.0,
            Some(
                SubsectionView {
                    fields: acc.1->0.fields.push(bullet_parts(l, true)->0),
                    ..acc.1->0
                },
            ),
        )
    } else {
        acc
    }
}

/// All lines applied in order.
pub open spec fn fold_subs(ws: Seq<Seq<char>>, acc: SubAcc) -> SubAcc
    decreases ws.len(),
{
    if ws.len() == 0 {
        acc
    } else {
        fold_subs(ws.drop_first(), sub_step(acc, ws[0]))
    }
}

/// The subsections of a window of lines, the last open one closed.
pub open spec fn subsections(ws: Seq<Seq<char>>) -> Seq<SubsectionView> {
    let acc = fold_subs(ws, (Seq::empty(), None));
    match acc.1 {
        Some(s) => acc.0.push(s),
        None => acc.0,
    }
}

/// The view of an optional subsection.
pub open spec fn opt_sub_view(o: Option<ReportSubsection>) -> Option<SubsectionView> {
    match o {
        Some(s) => Some(s@),
        None => None,
    }
}

proof fn lemma_fold_subs_skip(ws: Seq<Seq<char>>, i: int, acc: SubAcc)
    requires
        0 <= i < ws.len(),
    ensures
        fold_subs(ws.subrange(i, ws.len() as int), acc) == fold_subs(
            ws.subrange(i + 1, ws.len() as int),
            sub_step(acc, ws[i]),
        ),
{
    assert(ws.subrange(i, ws.len() as int).drop_first() =~= ws.subrange(i + 1, ws.len() as int));
}

/// The `### ` subsections inside `## heading`, each with its labeled bullets.
pub fn subsections_in_section(markdown: &str, heading: &str) -> (r: Vec<ReportSubsection>)
    ensures
        subsection_views(r@) == subsections(
            window_after(lines(markdown@), h2_of(heading@), LineTest::NoSectionHeading),
        ),
{
    let md = chars_of(markdown);
    let ls = lines_of(md.as_slice());
    let h = h2_chars(heading);
    let (a, b) = window_bounds(ls.as_slice(), h.as_slice(), LineTest::NoSectionHeading);
    let ghost w = line_views(ls@).subrange(a as int, b as int);
    let p: Vec<char> = vec!['#', '#', '#', ' '];
    let mut subs: Vec<ReportSubsection> = Vec::new();
    let mut current: Option<ReportSubsection> = None;
    let mut i: usize = a;
    let ghost target = fold_subs(w, (Seq::<SubsectionView>::empty(), None));
    assert(subsection_views(subs@) =~= Seq::<SubsectionView>::empty());
    assert(w.subrange(0, w.len() as int) =~= w);
    while i < b
        invariant
            a <= i <= b <= ls@.len(),
            w == line_views(ls@).subrange(a as int, b as int),
            p@ == seq!['#', '#', '#', ' '],
            target == fold_subs(w, (Seq::<SubsectionView>::empty(), None)),
            target == fold_subs(
                w.subrange(i - a, w.len() as int),
                (subsection_views(subs@), opt_sub_view(current)),
            ),
        decreases b - i,
    {
        let l = ls[i].as_slice();
        let ghost acc: SubAcc = (subsection_views(subs@), opt_sub_view(current));
        proof {
            lemma_fold_subs_skip(w, i - a, acc);
            assert(w[i - a] == l@);
        }
        if has_prefix(l, p.as_slice()) {
            match current.take() {
                Some(s) => {
                    subs.push(s);
                },
                None => {},
            }
            let fields: Vec<(String, String)> = Vec::new();
            assert(pair_views(fields@) =~= Seq::<(Seq<char>, Seq<char>)>::empty());
            current = Some(ReportSubsection { heading: string_of(&l[4..l.len()]), fields });
        } else if current.is_some() {
            match bullet_of(l, true) {
                Some(field) => {
                    match current.take() {
                        Some(s) => {
                            let mut fields = s.fields;
                            let ghost before = fields@;
                            fields.push(field);
                            assert(pair_views(fields@) =~= pair_views(before).push(pair_view(field)));
                            current = Some(ReportSubsection { heading: s.heading, fields });
                        },
                        None => {},
                    }
                },
                None => {},
            }
        }
        proof {
            assert(subsection_views(subs@) == sub_step(acc, l@).0);
            assert(opt_sub_view(current) == sub_step(acc, l@).1);
        }
        i = i + 1;
    }
    assert(w.subrange(b - a, w.len() as int) =~= Seq::<Seq<char>>::empty());
    match current {
        Some(s) => {
            subs.push(s);
        },
        None => {},
    }
    subs
}

// ---------------------------------------------------------------------------
// Ordered headings
// ---------------------------------------------------------------------------

/// Index of the first `". "` in `v` at or after `i`, or `v.len()`.
pub open spec fn dot_space_index(v: Seq<char>, i: int) -> int
    decreases v.len() - i,
{
    if i < 0 || i + 1 >= v.len() {
        v.len() as int
    } else if v[i] == '.' && v[i + 1] == ' ' {
        i
    } else {
        dot_space_index(v, i + 1)
    }
}

/// The prefix before `". "` is a list number (only ASCII digits, possibly
/// none) or a single ASCII capital letter.
pub open spec fn is_order_mark(p: Seq<char>) -> bool {
    (forall|k: int| 0 <= k < p.len() ==> is_digit(#[trigger] p[k])) || (p.len() == 1 && 'A' <= p[0]
        && p[0] <= 'Z')
}

/// A heading without its `1. ` / `A. ` order prefix.
pub open spec fn without_order_prefix(v: Seq<char>) -> Seq<char> {
    let k = dot_space_index(v, 0);
    if k < v.len() && is_order_mark(v.subrange(0, k)) {
        v.subrange(k + 2, v.len() as int)
    } else {
        v
    }
}

proof fn lemma_dot_space_bounds(v: Seq<char>, i: int)
    requires
        0 <= i,
    ensures
        dot_space_index(v, i) < v.len() ==> i <= dot_space_index(v, i) && dot_space_index(v, i) + 1
            < v.len(),
    decreases v.len() - i,
{
    if i + 1 < v.len() && !(v[i] == '.' && v[i + 1] == ' ') {
        lemma_dot_space_bounds(v, i + 1);
    }
}

/// The characters of a heading without its `1. ` / `A. ` order prefix.
fn order_stripped(v: &[char]) -> (r: &[char])
    ensures
        r@ == without_order_prefix(v@),
{
    proof {
        lemma_dot_space_bounds(v@, 0);
    }
    let n = v.len();
    let mut k: usize = 0;
    while k < n && k + 1 < n && !(v[k] == '.' && v[k + 1] == ' ')
        invariant
            k <= n == v@.len(),
            dot_space_index(v@, k as int) == dot_space_index(v@, 0),
        decreases n - k,
    {
        k = k + 1;
    }
    if k >= n || k + 1 >= n {
        return v;
    }
    let mut all_digits = true;
    let mut j: usize = 0;
    while j < k
        invariant
            j <= k < n == v@.len(),
            all_digits == (forall|m: int| 0 <= m < j ==> is_digit(#[trigger] v@[m])),
        decreases k - j,
    {
        if !('0' <= v[j] && v[j] <= '9') {
            all_digits = false;
        }
        j = j + 1;
    }
    assert(all_digits == (forall|m: int| 0 <= m < k ==> is_digit(#[trigger] v@.subrange(0, k as int)[m])))
        by {
        assert forall|m: int| 0 <= m < k implies v@.subrange(0, k as int)[m] == v@[m] by {}
    }
    let capital = k == 1 && 'A' <= v[0] && v[0] <= 'Z';
    if all_digits || capital {
        &v[k + 2..n]
    } else {
        v
    }
}

/// Drops a leading `1. ` or `A. ` order prefix from a heading.
pub fn strip_order_prefix(value: &str) -> (r: String)
    ensures
        r@ == without_order_prefix(value@),
{
    let v = chars_of(value);
    string_of(order_stripped(v.as_slice()))
}

// ---------------------------------------------------------------------------
// Pipe tables
// ---------------------------------------------------------------------------

/// The cells of a table line: the trimmed line without its outer pipes,
/// split at `|`, each cell trimmed and without outer backquotes.
pub open spec fn row_cells(l: Seq<char>) -> Seq<Seq<char>> {
    split_on(strip_char(trim(l), '|'), '|').map_values(|c: Seq<char>| strip_char(trim(c), '`'))
}

/// A cell of an alignment row: dashes, optionally wrapped in colons.
pub open spec fn is_alignment_cell(c: Seq<char>) -> bool {
    let a = strip_char(c, ':');
    a.len() > 0 && forall|k: int| 0 <= k < a.len() ==> #[trigger] a[k] == '-'
}

/// Every cell of the row is an alignment cell.
pub open spec fn is_alignment_row(r: Seq<Seq<char>>) -> bool {
    forall|k: int| 0 <= k < r.len() ==> is_alignment_cell(#[trigger] r[k])
}

/// The rows of the table lines `ls`, alignment rows left out.
pub open spec fn table_rows(ls: Seq<Seq<char>>) -> Seq<Seq<Seq<char>>>
    decreases ls.len(),
{
    if ls.len() == 0 {
        Seq::empty()
    } else if is_alignment_row(row_cells(ls.last())) {
        table_rows(ls.drop_last())
    } else {
        table_rows(ls.drop_last()).push(row_cells(ls.last()))
    }
}

/// A table from at least two lines with at least two rows left.
pub open spec fn table_of(ls: Seq<Seq<char>>) -> Option<Seq<Seq<Seq<char>>>> {
    if ls.len() < 2 {
        None
    } else if table_rows(ls).len() >= 2 {
        Some(table_rows(ls))
    } else {
        None
    }
}

/// The views of a table.
pub open spec fn table_view(t: Seq<Vec<String>>) -> Seq<Seq<Seq<char>>> {
    t.map_values(|r: Vec<String>| string_views(r@))
}

/// The view of an optional table.
pub open spec fn opt_table_view(t: Option<Vec<Vec<String>>>) -> Option<Seq<Seq<Seq<char>>>> {
    match t {
        Some(v) => Some(table_view(v@)),
        None => None,
    }
}

/// The pieces of `s` between `|`s, each trimmed and without outer backquotes.
fn split_cells(s: &[char]) -> (cells: Vec<String>)
    ensures
        string_views(cells@) == split_on(s@, '|').map_values(
            |c: Seq<char>| strip_char(trim(c), '`'),
        ),
{
    let n = s.len();
    let mut cells: Vec<String> = Vec::new();
    let mut i: usize = 0;
    let ghost f = |c: Seq<char>| strip_char(trim(c), '`');
    assert(string_views(cells@) =~= Seq::<Seq<char>>::empty());
    loop
        invariant
            i <= n == s@.len(),
            f == (|c: Seq<char>| strip_char(trim(c), '`')),
            split_on(s@, '|').map_values(f) == string_views(cells@) + split_from(s@, '|', i as int).map_values(f),
        decreases n - i,
    {
        let k = find_char(s, '|', i);
        let cell = string_of(stripped_char(trimmed(&s[i..k]), '`'));
        cells.push(cell);
        if k >= n {
            assert(split_from(s@, '|', i as int) =~= seq![s@.subrange(i as int, n as int)]);
            assert(split_on(s@, '|').map_values(f) =~= string_views(cells@));
            return cells;
        }
        proof {
            assert(split_from(s@, '|', i as int) =~= seq![s@.subrange(i as int, k as int)] + split_from(s@, '|', k + 1));
            assert(split_from(s@, '|', i as int).map_values(f) =~= seq![f(s@.subrange(i as int, k as int))] + split_from(s@, '|', k + 1).map_values(f));
            assert(string_views(cells@) =~= string_views(cells@.drop_last()).push(f(s@.subrange(i as int, k as int))));
        }
        assert(split_on(s@, '|').map_values(f) =~= string_views(cells@) + split_from(s@, '|', k + 1).map_values(f));
        i = k + 1;
    }
}

/// Whether every cell of the row is an alignment cell.
fn alignment_row(cells: &Vec<String>) -> (b: bool)
    ensures
        b == is_alignment_row(string_views(cells@)),
{
    let mut i: usize = 0;
    while i < cells.len()
        invariant
            i <= cells@.len(),
            forall|k: int| 0 <= k < i ==> is_alignment_cell(#[trigger] string_views(cells@)[k]),
        decreases cells.len() - i,
    {
        let c = chars_of(cells[i].as_str());
        let a = stripped_char(c.as_slice(), ':');
        let mut ok = a.len() > 0;
        let mut j: usize = 0;
        while j < a.len()
            invariant
                j <= a@.len(),
                ok == (a@.len() > 0 && forall|m: int| 0 <= m < j ==> #[trigger] a@[m] == '-'),
            decreases a.len() - j,
        {
            if a[j] != '-' {
                ok = false;
            }
            j = j + 1;
        }
        assert(string_views(cells@)[i as int] == c@);
        if !ok {
            return false;
        }
        i = i + 1;
    }
    true
}

/// Rows of the table lines, alignment rows dropped.
fn rows_of(ls: &[Vec<char>]) -> (rows: Vec<Vec<String>>)
    ensures
        table_view(rows@) == table_rows(line_views(ls@)),
{
    let mut rows: Vec<Vec<String>> = Vec::new();
    let mut i: usize = 0;
    let ghost lv = line_views(ls@);
    assert(lv.take(0) =~= Seq::<Seq<char>>::empty());
    assert(table_view(rows@) =~= Seq::<Seq<Seq<char>>>::empty());
    while i < ls.len()
        invariant
            i <= ls@.len(),
            lv == line_views(ls@),
            table_view(rows@) == table_rows(lv.take(i as int)),
        decreases ls.len() - i,
    {
        let l = ls[i].as_slice();
        assert(lv.take(i + 1).drop_last() =~= lv.take(i as int));
        assert(lv.take(i + 1).last() == l@);
        let cells = split_cells(stripped_char(trimmed(l), '|'));
        assert(string_views(cells@) == row_cells(l@));
        if !alignment_row(&cells) {
            rows.push(cells);
            assert(table_view(rows@) =~= table_rows(lv.take(i + 1)));
        }
        i = i + 1;
    }
    assert(lv.take(ls@.len() as int) =~= lv);
    rows
}

/// The table of the given lines.
fn table_from(ls: &[Vec<char>]) -> (t: Option<Vec<Vec<String>>>)
    ensures
        opt_table_view(t) == table_of(line_views(ls@)),
{
    if ls.len() < 2 {
        return None;
    }
    let rows = rows_of(ls);
    if rows.len() >= 2 {
        Some(rows)
    } else {
        None
    }
}

/// Parses pipe-table lines into rows of cells: outer pipes dropped, cells
/// trimmed and stripped of backquotes, alignment rows dropped. `None` unless
/// there are at least two lines and at least two rows remain.
pub fn parse_table(lines: &[String]) -> (t: Option<Vec<Vec<String>>>)
    ensures
        opt_table_view(t) == table_of(string_views(lines@)),
{
    let mut ls: Vec<Vec<char>> = Vec::new();
    let mut i: usize = 0;
    while i < lines.len()
        invariant
            i <= lines@.len(),
            line_views(ls@) == string_views(lines@).take(i as int),
        decreases lines.len() - i,
    {
        let v = chars_of(lines[i].as_str());
        let ghost before = ls@;
        ls.push(v);
        assert(line_views(ls@) =~= line_views(before).push(v@));
        assert(string_views(lines@).take(i + 1) =~= string_views(lines@).take(i as int).push(lines@[i as int]@));
        assert(line_views(ls@) =~= string_views(lines@).take(i + 1));
        i = i + 1;
    }
    assert(string_views(lines@).take(lines@.len() as int) =~= string_views(lines@));
    table_from(ls.as_slice())
}

/// The table under the line whose trimmed text is `h`: within the lines up to
/// the next line that starts (after indentation) with `#`, the first run of
/// lines that start (after indentation) with `|`.
pub open spec fn table_under(ls: Seq<Seq<char>>, h: Seq<char>) -> Option<Seq<Seq<Seq<char>>>> {
    match find_heading(ls, h, 0) {
        None => None,
        Some(k) => {
            let w = ls.subrange(k + 1, run_end(ls, k + 1, LineTest::NoIndentedHash));
            let a = run_end(w, 0, LineTest::NoIndentedPipe);
            let b = run_end(w, a, LineTest::IndentedPipe);
            table_of(w.subrange(a, b))
        },
    }
}

/// The table under the heading line `h` of the lines `ls`.
fn table_under_lines(ls: &[Vec<char>], h: &[char]) -> (t: Option<Vec<Vec<String>>>)
    ensures
        opt_table_view(t) == table_under(line_views(ls@), h@),
{
    let n = ls.len();
    match heading_line(ls, h) {
        None => None,
        Some(k) => {
            assert(k < n);
            let e = run_end_at(ls, k + 1, LineTest::NoIndentedHash);
            let w = &ls[k + 1..e];
            assert(line_views(w@) =~= line_views(ls@).subrange(k + 1, e as int));
            let a = run_end_at(w, 0, LineTest::NoIndentedPipe);
            let b = run_end_at(w, a, LineTest::IndentedPipe);
            let t = &w[a..b];
            assert(line_views(t@) =~= line_views(w@).subrange(a as int, b as int));
            table_from(t)
        },
    }
}

/// The table that follows the line whose trimmed text is `heading`.
pub fn table_after_heading(markdown: &str, heading: &str) -> (t: Option<Vec<Vec<String>>>)
    ensures
        opt_table_view(t) == table_under(lines(markdown@), heading@),
{
    let md = chars_of(markdown);
    let ls = lines_of(md.as_slice());
    let h = chars_of(heading);
    table_under_lines(ls.as_slice(), h.as_slice())
}

/// The table in the section `## heading`.
pub fn section_table(markdown: &str, heading: &str) -> (t: Option<Vec<Vec<String>>>)
    ensures
        opt_table_view(t) == table_under(lines(markdown@), h2_of(heading@)),
{
    let md = chars_of(markdown);
    let ls = lines_of(md.as_slice());
    let h = h2_chars(heading);
    table_under_lines(ls.as_slice(), h.as_slice())
}

} // verus!
