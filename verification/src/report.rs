//! Parsing of the structured `Unclear points` section of a daily report.
//!
//! The section is found at `###` depth first and at `##` depth otherwise; it
//! runs to the next heading of the same or a shallower depth, ignoring heading-
//! like lines inside fenced code blocks. Each `- Issue:` bullet starts a point;
//! `Cause:` and `General Fix Rule:` (or `Fix Rule:` / `Rule:`) lines fill it in.
use vstd::prelude::*;
use crate::text::{
    chars_of, has_prefix, has_suffix, lead_end, line_end, lines, lines_from, next_line, same_chars,
    starts_with, ends_with, string_of, to_ascii_lower, trim, trim_bounds, trimmed, ascii_lower,
};

verus! {

// ---------------------------------------------------------------------------
// Literal markers
// ---------------------------------------------------------------------------

/// `Unclear points`, the section heading.
pub open spec fn unclear_heading() -> Seq<char> {
    seq!['U', 'n', 'c', 'l', 'e', 'a', 'r', ' ', 'p', 'o', 'i', 'n', 't', 's']
}

/// `- Issue:`, which starts a point.
pub open spec fn issue_tag() -> Seq<char> {
    seq!['-', ' ', 'I', 's', 's', 'u', 'e', ':']
}

/// `Cause:`.
pub open spec fn cause_tag() -> Seq<char> {
    seq!['C', 'a', 'u', 's', 'e', ':']
}

/// `General Fix Rule:`.
pub open spec fn general_rule_tag() -> Seq<char> {
    seq!['G', 'e', 'n', 'e', 'r', 'a', 'l', ' ', 'F', 'i', 'x', ' ', 'R', 'u', 'l', 'e', ':']
}

/// `Fix Rule:`.
pub open spec fn fix_rule_tag() -> Seq<char> {
    seq!['F', 'i', 'x', ' ', 'R', 'u', 'l', 'e', ':']
}

/// `Rule:`.
pub open spec fn rule_tag() -> Seq<char> {
    seq!['R', 'u', 'l', 'e', ':']
}

/// The opening or closing of a fenced code block.
pub open spec fn fence_mark() -> Seq<char> {
    seq!['`', '`', '`']
}

/// `なし` ("none"), the sentinel for an empty section.
pub open spec fn nashi() -> Seq<char> {
    seq!['な', 'し']
}

/// `none`, compared without regard to ASCII case.
pub open spec fn none_word() -> Seq<char> {
    seq!['n', 'o', 'n', 'e']
}

fn unclear_heading_chars() -> (v: Vec<char>)
    ensures
        v@ == unclear_heading(),
{
    vec!['U', 'n', 'c', 'l', 'e', 'a', 'r', ' ', 'p', 'o', 'i', 'n', 't', 's']
}

fn issue_tag_chars() -> (v: Vec<char>)
    ensures
        v@ == issue_tag(),
{
    vec!['-', ' ', 'I', 's', 's', 'u', 'e', ':']
}

fn cause_tag_chars() -> (v: Vec<char>)
    ensures
        v@ == cause_tag(),
{
    vec!['C', 'a', 'u', 's', 'e', ':']
}

fn general_rule_tag_chars() -> (v: Vec<char>)
    ensures
        v@ == general_rule_tag(),
{
    vec!['G', 'e', 'n', 'e', 'r', 'a', 'l', ' ', 'F', 'i', 'x', ' ', 'R', 'u', 'l', 'e', ':']
}

fn fix_rule_tag_chars() -> (v: Vec<char>)
    ensures
        v@ == fix_rule_tag(),
{
    vec!['F', 'i', 'x', ' ', 'R', 'u', 'l', 'e', ':']
}

fn rule_tag_chars() -> (v: Vec<char>)
    ensures
        v@ == rule_tag(),
{
    vec!['R', 'u', 'l', 'e', ':']
}

fn fence_mark_chars() -> (v: Vec<char>)
    ensures
        v@ == fence_mark(),
{
    vec!['`', '`', '`']
}

// ---------------------------------------------------------------------------
// Line-anchored search
// ---------------------------------------------------------------------------

/// `needle` occurs in `hay` at index `i`, at the start of a line.
pub open spec fn anchored_at(hay: Seq<char>, needle: Seq<char>, i: int) -> bool {
    &&& 0 <= i
    &&& i + needle.len() <= hay.len()
    &&& hay.subrange(i, i + needle.len()) == needle
    &&& (i == 0 || hay[i - 1] == '\n')
}

/// `i` is the first line-anchored occurrence of `needle` in `hay`.
pub open spec fn first_anchored_at(hay: Seq<char>, needle: Seq<char>, i: int) -> bool {
    anchored_at(hay, needle, i) && forall|j: int| 0 <= j < i ==> !anchored_at(hay, needle, j)
}

/// The first index where `needle` begins a line of `hay`, if any.
pub open spec fn first_anchored(hay: Seq<char>, needle: Seq<char>) -> Option<int> {
    if exists|i: int| anchored_at(hay, needle, i) {
        Some(choose|i: int| first_anchored_at(hay, needle, i))
    } else {
        None
    }
}

proof fn lemma_first_anchored_unique(hay: Seq<char>, needle: Seq<char>, i: int)
    requires
        first_anchored_at(hay, needle, i),
    ensures
        first_anchored(hay, needle) == Some(i),
{
    let k = choose|k: int| first_anchored_at(hay, needle, k);
    assert(first_anchored_at(hay, needle, k));
    if k < i {
        assert(!anchored_at(hay, needle, k));
    } else if k > i {
        assert(!anchored_at(hay, needle, i));
    }
}

/// Finds `needle` where it begins at the start of a line (index 0 or right
/// after a `'\n'`); mid-line occurrences are skipped.
pub fn find_line_anchored(haystack: &[char], needle: &[char]) -> (r: Option<usize>)
    ensures
        r == (match first_anchored(haystack@, needle@) {
            Some(i) => Some(i as usize),
            None => None::<usize>,
        }),
        r matches Some(i) ==> first_anchored_at(haystack@, needle@, i as int),
        r is None ==> forall|j: int| !anchored_at(haystack@, needle@, j),
{
    let n = haystack.len();
    let m = needle.len();
    if m > n {
        return None;
    }
    let last = n - m;
    let mut i: usize = 0;
    loop
        invariant
            m <= n == haystack@.len(),
            m == needle@.len(),
            last == n - m,
            i <= last,
            forall|j: int| 0 <= j < i ==> !anchored_at(haystack@, needle@, j),
        ensures
            forall|j: int| 0 <= j <= last ==> !anchored_at(haystack@, needle@, j),
        decreases last - i,
    {
        if (i == 0 || haystack[i - 1] == '\n') && has_prefix(&haystack[i..n], needle) {
            proof {
                assert(haystack@.subrange(i as int, n as int).subrange(0, m as int)
                    =~= haystack@.subrange(i as int, i + m));
                assert(anchored_at(haystack@, needle@, i as int));
                lemma_first_anchored_unique(haystack@, needle@, i as int);
            }
            return Some(i);
        }
        proof {
            if anchored_at(haystack@, needle@, i as int) {
                assert(haystack@.subrange(i as int, n as int).subrange(0, m as int)
                    =~= haystack@.subrange(i as int, i + m));
            }
        }
        if i == last {
            break;
        }
        i = i + 1;
    }
    None
}

// ---------------------------------------------------------------------------
// Section extraction
// ---------------------------------------------------------------------------

/// `#` repeated `depth` times, a space, then the heading text.
pub open spec fn heading_prefix(depth: nat, heading: Seq<char>) -> Seq<char> {
    Seq::new(depth, |_i: int| '#') + seq![' '] + heading
}

/// Where the segment of `s` starting at `i` ends: just past its `'\n'`, or at
/// the end of `s`.
pub open spec fn next_start(s: Seq<char>, i: int) -> int {
    if line_end(s, i) < s.len() {
        line_end(s, i) + 1
    } else {
        s.len() as int
    }
}

/// Number of `#` characters at the start of `t`, counting from `i`.
pub open spec fn hash_run_from(t: Seq<char>, i: int) -> int
    decreases t.len() - i,
{
    if 0 <= i < t.len() && t[i] == '#' {
        hash_run_from(t, i + 1)
    } else {
        i
    }
}

/// Number of `#` characters at the start of `t`.
pub open spec fn hash_run(t: Seq<char>) -> int {
    hash_run_from(t, 0)
}

/// Where the body `s` of a section at heading depth `depth` ends, scanning
/// segments from `i` with `fence` telling whether a code fence is open: at the
/// first segment outside a fence whose trimmed text is a heading of depth
/// `<= depth`, or at the end of `s`. A segment whose trimmed text starts with
/// three backticks opens or closes a fence.
pub open spec fn body_end(s: Seq<char>, i: int, depth: nat, fence: bool) -> int
    decreases s.len() + 1 - i,
{
    if i < 0 || i >= s.len() {
        s.len() as int
    } else {
        let e = next_start(s, i);
        let t = trim(s.subrange(i, e));
        if e <= i || e > s.len() {
            s.len() as int
        } else if starts_with(t, fence_mark()) {
            body_end(s, e, depth, !fence)
        } else if !fence && t.len() > 0 && t[0] == '#' && hash_run(t) <= depth {
            i
        } else {
            body_end(s, e, depth, fence)
        }
    }
}

/// The body of the section headed `#`×`depth` + ` ` + `heading`, if that
/// heading begins a line of `md`: the text after the heading (one `'\n'`
/// skipped) up to `body_end`.
pub open spec fn section_at_depth(md: Seq<char>, heading: Seq<char>, depth: nat) -> Option<
    Seq<char>,
> {
    let p = heading_prefix(depth, heading);
    match first_anchored(md, p) {
        None => None,
        Some(start) => {
            let a0 = md.subrange(start + p.len(), md.len() as int);
            let a = if a0.len() > 0 && a0[0] == '\n' {
                a0.drop_first()
            } else {
                a0
            };
            Some(a.subrange(0, body_end(a, 0, depth, false)))
        },
    }
}

/// The section under `### heading`, or else under `## heading`.
pub open spec fn section_of(md: Seq<char>, heading: Seq<char>) -> Option<Seq<char>> {
    match section_at_depth(md, heading, 3) {
        Some(b) => Some(b),
        None => section_at_depth(md, heading, 2),
    }
}

proof fn lemma_body_end_bounds(s: Seq<char>, i: int, depth: nat, fence: bool)
    requires
        0 <= i <= s.len(),
    ensures
        i <= body_end(s, i, depth, fence) <= s.len(),
    decreases s.len() + 1 - i,
{
    if i < s.len() {
        crate::text::lemma_line_end_bounds(s, i);
        let e = next_start(s, i);
        if e > i && e <= s.len() {
            lemma_body_end_bounds(s, e, depth, true);
            lemma_body_end_bounds(s, e, depth, false);
        }
    }
}

/// Counts the `#` characters at the start of `t`.
fn count_hashes(t: &[char]) -> (k: usize)
    ensures
        k == hash_run(t@),
{
    let mut k: usize = 0;
    while k < t.len() && t[k] == '#'
        invariant
            k <= t@.len(),
            hash_run_from(t@, k as int) == hash_run(t@),
        decreases t.len() - k,
    {
        k = k + 1;
    }
    k
}

/// The length of the body of a section of depth `depth` that starts at the
/// beginning of `after`.
fn body_length(after: &[char], depth: usize) -> (e: usize)
    ensures
        e == body_end(after@, 0, depth as nat, false),
{
    let n = after.len();
    let fence_v = fence_mark_chars();
    let mut i: usize = 0;
    let mut fence = false;
    while i < n
        invariant
            i <= n == after@.len(),
            fence_v@ == fence_mark(),
            body_end(after@, i as int, depth as nat, fence) == body_end(
                after@,
                0,
                depth as nat,
                false,
            ),
        decreases n - i,
    {
        let (_, next) = next_line(after, i);
        let t = trimmed(&after[i..next]);
        if has_prefix(t, fence_v.as_slice()) {
            fence = !fence;
        } else if !fence && t.len() > 0 && t[0] == '#' && count_hashes(t) <= depth {
            return i;
        }
        i = next;
    }
    i
}

/// The body of the section headed `#`×`depth` + ` ` + `heading`.
fn section_at<'a>(md: &'a [char], heading: &[char], depth: usize) -> (r: Option<&'a [char]>)
    requires
        depth <= 3,
    ensures
        match r {
            Some(b) => section_at_depth(md@, heading@, depth as nat) == Some(b@),
            None => section_at_depth(md@, heading@, depth as nat) is None,
        },
{
    let mut prefix: Vec<char> = Vec::new();
    let mut d: usize = 0;
    while d < depth
        invariant
            d <= depth <= 3,
            prefix@ == Seq::new(d as nat, |_i: int| '#'),
        decreases depth - d,
    {
        prefix.push('#');
        d = d + 1;
        assert(prefix@ =~= Seq::new(d as nat, |_i: int| '#'));
    }
    prefix.push(' ');
    let mut k: usize = 0;
    while k < heading.len()
        invariant
            k <= heading@.len(),
            prefix@ == Seq::new(depth as nat, |_i: int| '#') + seq![' '] + heading@.subrange(
                0,
                k as int,
            ),
        decreases heading.len() - k,
    {
        prefix.push(heading[k]);
        k = k + 1;
        assert(heading@.subrange(0, k as int) =~= heading@.subrange(0, k - 1).push(
            heading@[k - 1],
        ));
    }
    assert(heading@.subrange(0, heading@.len() as int) =~= heading@);
    assert(prefix@ =~= heading_prefix(depth as nat, heading@));
    match find_line_anchored(md, prefix.as_slice()) {
        None => None,
        Some(start) => {
            let n = md.len();
            let a0 = &md[start + prefix.len()..n];
            let after = if a0.len() > 0 && a0[0] == '\n' {
                let m = a0.len();
                let a = &a0[1..m];
                assert(a@ =~= a0@.drop_first());
                a
            } else {
                a0
            };
            let e = body_length(after, depth);
            proof {
                lemma_body_end_bounds(after@, 0, depth as nat, false);
            }
            Some(&after[0..e])
        },
    }
}

/// Finds the body under `### <heading>` (or `## <heading>`) up to the next
/// heading of the same or a shallower depth, or the end of the document.
pub fn extract_section<'a>(md: &'a [char], heading: &[char]) -> (r: Option<&'a [char]>)
    ensures
        match r {
            Some(b) => section_of(md@, heading@) == Some(b@),
            None => section_of(md@, heading@) is None,
        },
{
    match section_at(md, heading, 3) {
        Some(b) => Some(b),
        None => section_at(md, heading, 2),
    }
}

// ---------------------------------------------------------------------------
// Unclear points
// ---------------------------------------------------------------------------

/// One stuck point: what went wrong, why, and the general rule to apply next
/// time.
#[derive(Debug, Clone)]
pub struct UnclearPoint {
    pub issue: String,
    pub cause: String,
    pub rule: String,
}

/// The text of an `UnclearPoint`.
pub struct PointView {
    pub issue: Seq<char>,
    pub cause: Seq<char>,
    pub rule: Seq<char>,
}

impl View for UnclearPoint {
    type V = PointView;

    open spec fn view(&self) -> PointView {
        PointView { issue: self.issue@, cause: self.cause@, rule: self.rule@ }
    }
}

impl UnclearPoint {
    /// A copy of this point.
    pub fn duplicate(&self) -> (p: UnclearPoint)
        ensures
            p@ == self@,
    {
        UnclearPoint { issue: self.issue.clone(), cause: self.cause.clone(), rule: self.rule.clone() }
    }
}

/// The view of an optional point.
pub open spec fn opt_point_view(o: Option<UnclearPoint>) -> Option<PointView> {
    match o {
        Some(p) => Some(p@),
        None => None,
    }
}

/// The views of a sequence of points.
pub open spec fn point_views(v: Seq<UnclearPoint>) -> Seq<PointView> {
    v.map_values(|p: UnclearPoint| p@)
}

/// Points gathered so far, and the point being filled in, if any.
pub type PointAcc = (Seq<PointView>, Option<PointView>);

/// Closes the point being filled in: it is kept when its issue is not empty.
pub open spec fn flush(out: Seq<PointView>, cur: Option<PointView>) -> Seq<PointView> {
    match cur {
        Some(p) => if p.issue.len() > 0 {
            out.push(p)
        } else {
            out
        },
        None => out,
    }
}

/// What follows a rule tag at the start of `t`: `General Fix Rule:` first,
/// then the aliases `Fix Rule:` and `Rule:`.
pub open spec fn rule_rest(t: Seq<char>) -> Option<Seq<char>> {
    if starts_with(t, general_rule_tag()) {
        Some(t.subrange(general_rule_tag().len() as int, t.len() as int))
    } else if starts_with(t, fix_rule_tag()) {
        Some(t.subrange(fix_rule_tag().len() as int, t.len() as int))
    } else if starts_with(t, rule_tag()) {
        Some(t.subrange(rule_tag().len() as int, t.len() as int))
    } else {
        None
    }
}

/// One line of the section applied to the accumulated points.
pub open spec fn point_step(acc: PointAcc, line: Seq<char>) -> PointAcc {
    let t = trim(line);
    if starts_with(t, issue_tag()) {
        (
            flush(acc.0, acc.1),
            Some(
                PointView {
                    issue: trim(t.subrange(issue_tag().len() as int, t.len() as int)),
                    cause: Seq::empty(),
                    rule: Seq::empty(),
                },
            ),
        )
    } else if acc.1 is Some && starts_with(t, cause_tag()) {
        (
            acc.0,
            Some(
                PointView {
                    cause: trim(t.subrange(cause_tag().len() as int, t.len() as int)),
                    ..acc.1->0
                },
            ),
        )
    } else if acc.1 is Some && rule_rest(t) is Some {
        (acc.0, Some(PointView { rule: trim(rule_rest(t)->0), ..acc.1->0 }))
    } else {
        acc
    }
}

/// All lines applied in order.
pub open spec fn fold_points(ls: Seq<Seq<char>>, acc: PointAcc) -> PointAcc
    decreases ls.len(),
{
    if ls.len() == 0 {
        acc
    } else {
        fold_points(ls.drop_first(), point_step(acc, ls[0]))
    }
}

/// An unfilled template placeholder: an issue wrapped in full-width
/// parentheses.
pub open spec fn is_placeholder(p: PointView) -> bool {
    starts_with(p.issue, seq!['（']) && ends_with(p.issue, seq!['）'])
}

/// The points of `s` that are not placeholders, in order.
pub open spec fn drop_placeholders(s: Seq<PointView>) -> Seq<PointView>
    decreases s.len(),
{
    if s.len() == 0 {
        s
    } else if is_placeholder(s.last()) {
        drop_placeholders(s.drop_last())
    } else {
        drop_placeholders(s.drop_last()).push(s.last())
    }
}

/// The trimmed section says there is nothing: it is empty, `なし`, or `none`
/// in any ASCII case.
pub open spec fn is_nothing(t: Seq<char>) -> bool {
    ||| t.len() == 0
    ||| t == nashi()
    ||| (t.len() == 4 && forall|k: int| 0 <= k < 4 ==> ascii_lower(#[trigger] t[k])
        == none_word()[k])
}

/// The unclear points of a report.
pub open spec fn unclear_points(md: Seq<char>) -> Seq<PointView> {
    match section_of(md, unclear_heading()) {
        None => Seq::empty(),
        Some(sec) => if is_nothing(trim(sec)) {
            Seq::empty()
        } else {
            let acc = fold_points(lines(sec), (Seq::empty(), None));
            drop_placeholders(flush(acc.0, acc.1))
        },
    }
}

proof fn lemma_fold_points_cons(x: Seq<char>, rest: Seq<Seq<char>>, acc: PointAcc)
    ensures
        fold_points(seq![x] + rest, acc) == fold_points(rest, point_step(acc, x)),
{
    assert((seq![x] + rest).drop_first() =~= rest);
}

/// Whether `t` is empty, `なし`, or `none` in any ASCII case.
fn says_nothing(t: &[char]) -> (b: bool)
    ensures
        b == is_nothing(t@),
{
    if t.len() == 0 {
        return true;
    }
    let nashi_v: Vec<char> = vec!['な', 'し'];
    if same_chars(t, nashi_v.as_slice()) {
        return true;
    }
    if t.len() != 4 {
        assert(t@ != nashi());
        return false;
    }
    let word: Vec<char> = vec!['n', 'o', 'n', 'e'];
    let mut k: usize = 0;
    while k < 4
        invariant
            k <= 4,
            t@.len() == 4,
            word@ == none_word(),
            forall|j: int| 0 <= j < k ==> ascii_lower(#[trigger] t@[j]) == none_word()[j],
        decreases 4 - k,
    {
        if to_ascii_lower(t[k]) != word[k] {
            assert(t@ != nashi());
            return false;
        }
        k = k + 1;
    }
    true
}

/// The text after `tag` at the start of `t`, trimmed, as a `String`.
fn trimmed_rest(t: &[char], skip: usize) -> (s: String)
    requires
        skip <= t@.len(),
    ensures
        s@ == trim(t@.subrange(skip as int, t@.len() as int)),
{
    string_of(trimmed(&t[skip..t.len()]))
}

/// The rest of `t` after a rule tag, if it begins with one.
fn rule_rest_at(t: &[char]) -> (r: Option<usize>)
    ensures
        match r {
            Some(k) => k <= t@.len() && rule_rest(t@) == Some(t@.subrange(k as int, t@.len() as int)),
            None => rule_rest(t@) is None,
        },
{
    let g = general_rule_tag_chars();
    if has_prefix(t, g.as_slice()) {
        return Some(g.len());
    }
    let f = fix_rule_tag_chars();
    if has_prefix(t, f.as_slice()) {
        return Some(f.len());
    }
    let r = rule_tag_chars();
    if has_prefix(t, r.as_slice()) {
        return Some(r.len());
    }
    None
}

/// Pulls the `Unclear points` section out of a report and parses each
/// `- Issue: / Cause: / General Fix Rule:` triple. The heading is looked up at
/// `###` depth first and at `##` depth otherwise. Returns no points when the
/// section is missing or says there is nothing (`なし` / `none`), and drops
/// unfilled template placeholders.
pub fn parse_unclear_points(md: &str) -> (pts: Vec<UnclearPoint>)
    ensures
        point_views(pts@) == unclear_points(md@),
{
    let text = chars_of(md);
    let heading = unclear_heading_chars();
    let section = match extract_section(text.as_slice(), heading.as_slice()) {
        None => {
            let empty: Vec<UnclearPoint> = Vec::new();
            assert(point_views(empty@) =~= Seq::<PointView>::empty());
            return empty;
        },
        Some(sec) => sec,
    };
    if says_nothing(trimmed(section)) {
        let empty: Vec<UnclearPoint> = Vec::new();
        assert(point_views(empty@) =~= Seq::<PointView>::empty());
        return empty;
    }
    let issue_v = issue_tag_chars();
    let cause_v = cause_tag_chars();
    let mut out: Vec<UnclearPoint> = Vec::new();
    let mut cur: Option<UnclearPoint> = None;
    let n = section.len();
    let mut i: usize = 0;
    let ghost target = fold_points(lines(section@), (Seq::<PointView>::empty(), None));
    assert(point_views(out@) =~= Seq::<PointView>::empty());
    while i < n
        invariant
            i <= n == section@.len(),
            issue_v@ == issue_tag(),
            cause_v@ == cause_tag(),
            target == fold_points(lines(section@), (Seq::<PointView>::empty(), None)),
            target == fold_points(
                lines_from(section@, i as int),
                (
                    point_views(out@),
                    opt_point_view(cur),
                ),
            ),
        decreases n - i,
    {
        let (content_end, next) = next_line(section, i);
        let line = &section[i..content_end];
        let ghost acc: PointAcc = (
            point_views(out@),
            opt_point_view(cur),
        );
        proof {
            lemma_fold_points_cons(line@, lines_from(section@, next as int), acc);
        }
        let t = trimmed(line);
        if has_prefix(t, issue_v.as_slice()) {
            match cur.take() {
                Some(p) => {
                    if !p.issue.as_str().is_empty() {
                        out.push(p);
                    }
                },
                None => {},
            }
            cur = Some(
                UnclearPoint {
                    issue: trimmed_rest(t, issue_v.len()),
                    cause: String::new(),
                    rule: String::new(),
                },
            );
        } else if cur.is_some() && has_prefix(t, cause_v.as_slice()) {
            let cause = trimmed_rest(t, cause_v.len());
            match cur.take() {
                Some(p) => {
                    cur = Some(UnclearPoint { issue: p.issue, cause, rule: p.rule });
                },
                None => {},
            }
        } else if cur.is_some() {
            match rule_rest_at(t) {
                Some(k) => {
                    let rule = trimmed_rest(t, k);
                    match cur.take() {
                        Some(p) => {
                            cur = Some(UnclearPoint { issue: p.issue, cause: p.cause, rule });
                        },
                        None => {},
                    }
                },
                None => {},
            }
        }
        proof {
            assert(point_views(out@) == point_step(acc, line@).0);
        }
        i = next;
    }
    assert(lines_from(section@, n as int) =~= Seq::<Seq<char>>::empty());
    assert(target == (point_views(out@), opt_point_view(cur)));
    let ghost before = point_views(out@);
    match cur.take() {
        Some(p) => {
            if !p.issue.as_str().is_empty() {
                out.push(p);
            }
        },
        None => {},
    }
    let ghost flushed = point_views(out@);
    assert(flushed =~= flush(target.0, target.1));
    let mut kept: Vec<UnclearPoint> = Vec::new();
    let mut j: usize = 0;
    let open_paren: Vec<char> = vec!['（'];
    let close_paren: Vec<char> = vec!['）'];
    assert(point_views(kept@) =~= drop_placeholders(flushed.take(0)));
    while j < out.len()
        invariant
            j <= out@.len(),
            flushed == point_views(out@),
            open_paren@ == seq!['（'],
            close_paren@ == seq!['）'],
            point_views(kept@) == drop_placeholders(flushed.take(j as int)),
        decreases out.len() - j,
    {
        let issue = chars_of(out[j].issue.as_str());
        assert(flushed.take(j + 1).drop_last() =~= flushed.take(j as int));
        if has_prefix(issue.as_slice(), open_paren.as_slice()) && has_suffix(
            issue.as_slice(),
            close_paren.as_slice(),
        ) {
        } else {
            kept.push(out[j].duplicate());
            assert(point_views(kept@) =~= drop_placeholders(flushed.take(j + 1)));
        }
        j = j + 1;
    }
    assert(flushed.take(out@.len() as int) =~= flushed);
    kept
}

/// All points of `s` have a non-empty issue.
pub open spec fn all_have_issue(s: Seq<PointView>) -> bool {
    forall|k: int| 0 <= k < s.len() ==> (#[trigger] s[k]).issue.len() > 0
}

proof fn lemma_fold_keeps_issues(ls: Seq<Seq<char>>, acc: PointAcc)
    requires
        all_have_issue(acc.0),
    ensures
        all_have_issue(fold_points(ls, acc).0),
    decreases ls.len(),
{
    if ls.len() > 0 {
        let next = point_step(acc, ls[0]);
        assert(all_have_issue(flush(acc.0, acc.1)));
        assert(all_have_issue(next.0));
        lemma_fold_keeps_issues(ls.drop_first(), next);
    }
}

proof fn lemma_drop_placeholders(s: Seq<PointView>)
    requires
        all_have_issue(s),
    ensures
        all_have_issue(drop_placeholders(s)),
        forall|k: int| 0 <= k < drop_placeholders(s).len() ==> !is_placeholder(#[trigger] drop_placeholders(s)[k]),
    decreases s.len(),
{
    if s.len() > 0 {
        assert(all_have_issue(s.drop_last()));
        lemma_drop_placeholders(s.drop_last());
        assert(s.last() == s[s.len() - 1]);
    }
}

/// Every parsed point has a non-empty issue and none is an unfilled template
/// placeholder.
pub proof fn lemma_points_are_filled(md: Seq<char>)
    ensures
        forall|k: int| 0 <= k < unclear_points(md).len() ==> (#[trigger] unclear_points(md)[k]).issue.len() > 0
            && !is_placeholder(unclear_points(md)[k]),
{
    match section_of(md, unclear_heading()) {
        None => {},
        Some(sec) => {
            if !is_nothing(trim(sec)) {
                let acc = fold_points(lines(sec), (Seq::empty(), None));
                lemma_fold_keeps_issues(lines(sec), (Seq::empty(), None));
                assert(all_have_issue(flush(acc.0, acc.1)));
                lemma_drop_placeholders(flush(acc.0, acc.1));
            }
        },
    }
}

/// The points of a section before template prompts are dropped.
pub open spec fn section_points(sec: Seq<char>) -> Seq<PointView> {
    let acc = fold_points(lines(sec), (Seq::empty(), None));
    flush(acc.0, acc.1)
}

proof fn lemma_drop_placeholders_members(s: Seq<PointView>, p: PointView)
    ensures
        drop_placeholders(s).contains(p) <==> (s.contains(p) && !(starts_with(p.issue, seq!['（'])
            && ends_with(p.issue, seq!['）']))),
    decreases s.len(),
{
    if s.len() > 0 {
        let init = s.drop_last();
        lemma_drop_placeholders_members(init, p);
        assert(s =~= init.push(s.last()));
        assert(s.contains(p) <==> (init.contains(p) || s.last() == p)) by {
            if s.contains(p) {
                let k = choose|k: int| 0 <= k < s.len() && s[k] == p;
                if k < init.len() {
                    assert(init[k] == p);
                }
            }
            if init.contains(p) {
                let k = choose|k: int| 0 <= k < init.len() && init[k] == p;
                assert(s[k] == p);
            }
        }
        let d = drop_placeholders(init);
        if !is_placeholder(s.last()) {
            assert(d.push(s.last()).contains(p) <==> (d.contains(p) || s.last() == p)) by {
                if d.push(s.last()).contains(p) {
                    let k = choose|k: int| 0 <= k < d.len() + 1 && d.push(s.last())[k] == p;
                    if k < d.len() {
                        assert(d[k] == p);
                    }
                }
                if d.contains(p) {
                    let k = choose|k: int| 0 <= k < d.len() && d[k] == p;
                    assert(d.push(s.last())[k] == p);
                }
                assert(d.push(s.last())[d.len() as int] == s.last());
            }
        }
    }
}

/// Only a template prompt, an issue wrapped whole in full-width parentheses
/// (starting with `（` and ending with `）`), is dropped: every point that the
/// section lists is kept exactly when its issue is not so wrapped, and nothing
/// else is listed.
pub proof fn lemma_only_wrapped_issues_dropped(md: Seq<char>, sec: Seq<char>, p: PointView)
    requires
        section_of(md, unclear_heading()) == Some(sec),
        !is_nothing(trim(sec)),
    ensures
        unclear_points(md).contains(p) <==> (section_points(sec).contains(p) && !(starts_with(
            p.issue,
            seq!['（'],
        ) && ends_with(p.issue, seq!['）']))),
{
    lemma_drop_placeholders_members(section_points(sec), p);
}

} // verus!
