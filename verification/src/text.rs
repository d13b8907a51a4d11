//! Character-level text helpers shared by the ledger and the HTML renderer.
//!
//! Text is handled as sequences of Unicode scalar values (`Seq<char>`); the
//! executable helpers work on `&[char]` slices so that a line or a cell can be
//! passed around without copying.
use vstd::prelude::*;

verus! {

broadcast use vstd::string::group_string_axioms;

// ---------------------------------------------------------------------------
// Whitespace
// ---------------------------------------------------------------------------

/// Whether a character has the Unicode `White_Space` property, which is what
/// `char::is_whitespace` decides: tab to carriage return, space, U+0085,
/// U+00A0, U+1680, U+2000 to U+200A, U+2028, U+2029, U+202F, U+205F, U+3000.
pub open spec fn white_space(c: char) -> bool {
    let n = c as u32;
    ||| 0x09 <= n <= 0x0D
    ||| n == 0x20
    ||| n == 0x85
    ||| n == 0xA0
    ||| n == 0x1680
    ||| 0x2000 <= n <= 0x200A
    ||| n == 0x2028
    ||| n == 0x2029
    ||| n == 0x202F
    ||| n == 0x205F
    ||| n == 0x3000
}

/// Whether `c` is whitespace, as `char::is_whitespace` decides it.
pub(crate) fn is_white_space(c: char) -> (b: bool)
    ensures
        b == white_space(c),
{
    let n = c as u32;
    (0x09 <= n && n <= 0x0D) || n == 0x20 || n == 0x85 || n == 0xA0 || n == 0x1680 || (0x2000
        <= n && n <= 0x200A) || n == 0x2028 || n == 0x2029 || n == 0x202F || n == 0x205F || n
        == 0x3000
}

/// Index of the first non-whitespace character at or after `i` (or `s.len()`).
pub open spec fn lead_end(s: Seq<char>, i: int) -> int
    decreases s.len() - i,
{
    if i >= s.len() {
        s.len() as int
    } else if white_space(s[i]) {
        lead_end(s, i + 1)
    } else {
        i
    }
}

/// The smallest `k <= j` such that `s[k..j]` is all whitespace.
pub open spec fn trail_start(s: Seq<char>, j: int) -> int
    decreases j,
{
    if j <= 0 {
        0
    } else if white_space(s[j - 1]) {
        trail_start(s, j - 1)
    } else {
        j
    }
}

/// `str::trim_start`: leading whitespace removed.
pub open spec fn trim_start(s: Seq<char>) -> Seq<char> {
    s.subrange(lead_end(s, 0), s.len() as int)
}

/// `str::trim`: leading and trailing whitespace removed.
pub open spec fn trim(s: Seq<char>) -> Seq<char> {
    let a = lead_end(s, 0);
    let b = trail_start(s, s.len() as int);
    if b <= a {
        Seq::empty()
    } else {
        s.subrange(a, b)
    }
}

proof fn lemma_lead_end_bounds(s: Seq<char>, i: int)
    requires
        0 <= i,
    ensures
        i <= s.len() ==> i <= lead_end(s, i) <= s.len(),
        i > s.len() ==> lead_end(s, i) == s.len(),
        forall|k: int| i <= k < lead_end(s, i) ==> white_space(#[trigger] s[k]),
        lead_end(s, i) < s.len() ==> !white_space(s[lead_end(s, i)]),
    decreases s.len() - i,
{
    if i < s.len() && white_space(s[i]) {
        lemma_lead_end_bounds(s, i + 1);
    }
}

proof fn lemma_trail_start_bounds(s: Seq<char>, j: int)
    requires
        j <= s.len(),
    ensures
        j >= 0 ==> 0 <= trail_start(s, j) <= j,
        forall|k: int| trail_start(s, j) <= k < j ==> white_space(#[trigger] s[k]),
        trail_start(s, j) > 0 ==> !white_space(s[trail_start(s, j) - 1]),
    decreases j,
{
    if j > 0 && white_space(s[j - 1]) {
        lemma_trail_start_bounds(s, j - 1);
    }
}

/// Bounds `(a, b)` such that `s[a..b]` is `s` with leading and trailing
/// whitespace removed.
pub fn trim_bounds(s: &[char]) -> (r: (usize, usize))
    ensures
        r.0 <= r.1 <= s@.len(),
        s@.subrange(r.0 as int, r.1 as int) == trim(s@),
        r.0 == lead_end(s@, 0),
{
    let n = s.len();
    let mut a: usize = 0;
    while a < n && is_white_space(s[a])
        invariant
            a <= n == s@.len(),
            lead_end(s@, a as int) == lead_end(s@, 0),
        decreases n - a,
    {
        a = a + 1;
    }
    let mut b: usize = n;
    while b > a && is_white_space(s[b - 1])
        invariant
            a <= b <= n == s@.len(),
            trail_start(s@, b as int) == trail_start(s@, n as int),
            forall|k: int| b <= k < n ==> white_space(#[trigger] s@[k]),
        decreases b,
    {
        b = b - 1;
    }
    proof {
        lemma_trail_start_bounds(s@, n as int);
        lemma_lead_end_bounds(s@, 0);
        if b > a {
            assert(trail_start(s@, b as int) == b);
        } else {
            // Everything from `a` on is whitespace, so the trailing scan
            // reaches at least as far back as `a`.
            assert forall|k: int| a <= k < n implies white_space(#[trigger] s@[k]) by {}
            lemma_trail_start_all_ws(s@, n as int, a as int);
        }
    }
    (a, b)
}

proof fn lemma_trail_start_all_ws(s: Seq<char>, j: int, a: int)
    requires
        0 <= a <= j <= s.len(),
        forall|k: int| a <= k < j ==> white_space(#[trigger] s[k]),
    ensures
        trail_start(s, j) <= a,
    decreases j,
{
    lemma_trail_start_bounds(s, j);
    if j > a {
        assert(white_space(s[j - 1]));
        lemma_trail_start_all_ws(s, j - 1, a);
    }
}

/// `s` with leading and trailing whitespace removed.
pub fn trimmed(s: &[char]) -> (r: &[char])
    ensures
        r@ == trim(s@),
{
    let (a, b) = trim_bounds(s);
    &s[a..b]
}

/// `s` with leading whitespace removed.
pub fn trimmed_start(s: &[char]) -> (r: &[char])
    ensures
        r@ == trim_start(s@),
{
    let n = s.len();
    let mut a: usize = 0;
    while a < n && is_white_space(s[a])
        invariant
            a <= n == s@.len(),
            lead_end(s@, a as int) == lead_end(s@, 0),
        decreases n - a,
    {
        a = a + 1;
    }
    &s[a..n]
}

// ---------------------------------------------------------------------------
// Prefixes and literals
// ---------------------------------------------------------------------------

/// `s` begins with `p`.
pub open spec fn starts_with(s: Seq<char>, p: Seq<char>) -> bool {
    p.len() <= s.len() && s.subrange(0, p.len() as int) == p
}

/// `s` ends with `p`.
pub open spec fn ends_with(s: Seq<char>, p: Seq<char>) -> bool {
    p.len() <= s.len() && s.subrange(s.len() - p.len(), s.len() as int) == p
}

/// Whether `s` begins with `p`.
pub fn has_prefix(s: &[char], p: &[char]) -> (b: bool)
    ensures
        b == starts_with(s@, p@),
{
    if p.len() > s.len() {
        return false;
    }
    let mut i: usize = 0;
    while i < p.len()
        invariant
            i <= p@.len() <= s@.len(),
            forall|k: int| 0 <= k < i ==> s@[k] == p@[k],
        decreases p.len() - i,
    {
        if s[i] != p[i] {
            assert(s@.subrange(0, p@.len() as int)[i as int] != p@[i as int]);
            return false;
        }
        i = i + 1;
    }
    assert(s@.subrange(0, p@.len() as int) =~= p@);
    true
}

/// Whether `s` ends with `p`.
pub fn has_suffix(s: &[char], p: &[char]) -> (b: bool)
    ensures
        b == ends_with(s@, p@),
{
    if p.len() > s.len() {
        return false;
    }
    let n = s.len();
    let off = n - p.len();
    let mut i: usize = 0;
    while i < p.len()
        invariant
            n == s@.len(),
            i <= p@.len() <= s@.len(),
            off + p@.len() == s@.len(),
            forall|k: int| 0 <= k < i ==> s@[off + k] == p@[k],
        decreases p.len() - i,
    {
        assert(off + i < s@.len());
        if s[off + i] != p[i] {
            assert(s@.subrange(off as int, s@.len() as int)[i as int] != p@[i as int]);
            return false;
        }
        i = i + 1;
    }
    assert(s@.subrange(off as int, s@.len() as int) =~= p@);
    true
}

/// Whether the two character sequences are equal.
pub fn same_chars(a: &[char], b: &[char]) -> (r: bool)
    ensures
        r == (a@ == b@),
{
    if a.len() != b.len() {
        return false;
    }
    let r = has_prefix(a, b);
    assert(a@ =~= a@.subrange(0, b@.len() as int));
    r
}

/// Whether `c` occurs in `s`.
pub fn has_char(s: &[char], c: char) -> (b: bool)
    ensures
        b == s@.contains(c),
{
    let mut i: usize = 0;
    while i < s.len()
        invariant
            i <= s@.len(),
            forall|k: int| 0 <= k < i ==> s@[k] != c,
        decreases s.len() - i,
    {
        if s[i] == c {
            return true;
        }
        i = i + 1;
    }
    false
}

// ---------------------------------------------------------------------------
// Lines
// ---------------------------------------------------------------------------

/// Index of the first `'\n'` at or after `i`, or `s.len()`.
pub open spec fn line_end(s: Seq<char>, i: int) -> int
    decreases s.len() - i,
{
    if i >= s.len() {
        s.len() as int
    } else if s[i] == '\n' {
        i
    } else {
        line_end(s, i + 1)
    }
}

/// The line that starts at `i`, without its `"\n"` or `"\r\n"` terminator.
pub open spec fn line_at(s: Seq<char>, i: int) -> Seq<char> {
    let e = line_end(s, i);
    if e < s.len() && e > i && s[e - 1] == '\r' {
        s.subrange(i, e - 1)
    } else {
        s.subrange(i, e)
    }
}

pub proof fn lemma_line_end_bounds(s: Seq<char>, i: int)
    requires
        0 <= i <= s.len(),
    ensures
        i <= line_end(s, i) <= s.len(),
        line_end(s, i) < s.len() ==> s[line_end(s, i)] == '\n',
        forall|k: int| i <= k < line_end(s, i) ==> #[trigger] s[k] != '\n',
    decreases s.len() - i,
{
    if i < s.len() && s[i] != '\n' {
        lemma_line_end_bounds(s, i + 1);
    }
}

/// `str::lines` on the text from index `i` on: the text is split at `'\n'`,
/// a `'\r'` right before a `'\n'` is dropped, and a final empty line is not
/// produced.
pub open spec fn lines_from(s: Seq<char>, i: int) -> Seq<Seq<char>>
    decreases s.len() + 1 - i,
{
    if i < 0 || i >= s.len() {
        Seq::empty()
    } else {
        let e = line_end(s, i);
        if e < i || e > s.len() {
            Seq::empty()
        } else {
            seq![line_at(s, i)] + lines_from(s, e + 1)
        }
    }
}

/// `str::lines`.
pub open spec fn lines(s: Seq<char>) -> Seq<Seq<char>> {
    lines_from(s, 0)
}

pub proof fn lemma_lines_from_step(s: Seq<char>, i: int)
    requires
        0 <= i < s.len(),
    ensures
        lines_from(s, i).len() > 0,
        lines_from(s, i)[0] == line_at(s, i),
        lines_from(s, i).drop_first() == lines_from(s, line_end(s, i) + 1),
        i <= line_end(s, i) < s.len() ==> s[line_end(s, i)] == '\n',
        i <= line_end(s, i) <= s.len(),
{
    lemma_line_end_bounds(s, i);
    assert(lines_from(s, i).drop_first() =~= lines_from(s, line_end(s, i) + 1));
}

/// For the line starting at `i`: the index just past its content and the
/// index where the next line starts.
pub fn next_line(s: &[char], i: usize) -> (r: (usize, usize))
    requires
        i < s@.len(),
    ensures
        i <= r.0 <= line_end(s@, i as int),
        r.1 == (if line_end(s@, i as int) < s@.len() {
            line_end(s@, i as int) + 1
        } else {
            s@.len() as int
        }),
        i < r.1 <= s@.len(),
        s@.subrange(i as int, r.0 as int) == line_at(s@, i as int),
        lines_from(s@, i as int) == seq![line_at(s@, i as int)] + lines_from(s@, r.1 as int),
{
    proof {
        lemma_lines_from_step(s@, i as int);
    }
    let n = s.len();
    let mut e: usize = i;
    while e < n && s[e] != '\n'
        invariant
            i <= e <= n == s@.len(),
            line_end(s@, e as int) == line_end(s@, i as int),
        decreases n - e,
    {
        e = e + 1;
    }
    let next = if e < n { e + 1 } else { n };
    assert(lines_from(s@, i as int) =~= seq![line_at(s@, i as int)] + lines_from(
        s@,
        next as int,
    ));
    if e < n && e > i && s[e - 1] == '\r' {
        (e - 1, next)
    } else {
        (e, next)
    }
}

// ---------------------------------------------------------------------------
// Conversions between `str`/`String` and `char` sequences
// ---------------------------------------------------------------------------

/// Appends one character to a `String` (std's `String::push`).
#[verifier::external_body]
fn push_char(s: &mut String, c: char)
    ensures
        final(s)@ == old(s)@.push(c),
{
    s.push(c);
}

/// The characters of `s`, in order.
pub fn chars_of(s: &str) -> (v: Vec<char>)
    ensures
        v@ == s@,
{
    let mut v: Vec<char> = Vec::new();
    for c in it: s.chars()
        invariant
            v@ == it.seq().take(it.index() as int),
    {
        v.push(c);
    }
    v
}

/// Appends the characters of `v` to `s`.
pub fn push_chars(s: &mut String, v: &[char])
    ensures
        final(s)@ == old(s)@ + v@,
{
    let mut i: usize = 0;
    while i < v.len()
        invariant
            i <= v@.len(),
            s@ == old(s)@ + v@.subrange(0, i as int),
        decreases v.len() - i,
    {
        push_char(s, v[i]);
        i = i + 1;
        assert(v@.subrange(0, i as int) =~= v@.subrange(0, i - 1) + seq![v@[i - 1]]);
    }
    assert(v@.subrange(0, v@.len() as int) =~= v@);
}

/// A `String` holding exactly the characters of `v`.
pub fn string_of(v: &[char]) -> (s: String)
    ensures
        s@ == v@,
{
    let mut s = String::new();
    push_chars(&mut s, v);
    assert(Seq::<char>::empty() + v@ =~= v@);
    s
}

/// Appends a string slice to `s`.
pub fn push_str(s: &mut String, t: &str)
    ensures
        final(s)@ == old(s)@ + t@,
{
    let v = chars_of(t);
    push_chars(s, v.as_slice());
}

// ---------------------------------------------------------------------------
// ASCII helpers
// ---------------------------------------------------------------------------

/// `char::to_ascii_lowercase`: `'A'..='Z'` map to `'a'..='z'`, every other
/// character is unchanged.
pub open spec fn ascii_lower(c: char) -> char {
    if 'A' <= c && c <= 'Z' {
        ((c as u32) + 32) as char
    } else {
        c
    }
}

/// `char::is_ascii_digit`.
pub open spec fn is_digit(c: char) -> bool {
    '0' <= c && c <= '9'
}

/// The ASCII-lowercase form of `c`.
pub fn to_ascii_lower(c: char) -> (r: char)
    ensures
        r == ascii_lower(c),
{
    if 'A' <= c && c <= 'Z' {
        let u: u32 = (c as u32) + 32;
        assert((u as u8) as u32 == u) by (bit_vector)
            requires
                65 <= u <= 122,
        ;
        (u as u8) as char
    } else {
        c
    }
}

// ---------------------------------------------------------------------------
// Character-specific trimming, removal, splitting and escaping
// ---------------------------------------------------------------------------

/// Index of the first character at or after `i` that is not `c`.
pub open spec fn lead_end_char(s: Seq<char>, c: char, i: int) -> int
    decreases s.len() - i,
{
    if i < 0 || i >= s.len() {
        if i < 0 { 0 } else { s.len() as int }
    } else if s[i] == c {
        lead_end_char(s, c, i + 1)
    } else {
        i
    }
}

/// The smallest `k <= j` such that `s[k..j]` is all `c`.
pub open spec fn trail_start_char(s: Seq<char>, c: char, j: int) -> int
    decreases j,
{
    if j <= 0 {
        0
    } else if s[j - 1] == c {
        trail_start_char(s, c, j - 1)
    } else {
        j
    }
}

/// `str::trim_matches(c)`: every leading and trailing `c` removed.
pub open spec fn strip_char(s: Seq<char>, c: char) -> Seq<char> {
    let a = lead_end_char(s, c, 0);
    let b = trail_start_char(s, c, s.len() as int);
    if b <= a {
        Seq::empty()
    } else {
        s.subrange(a, b)
    }
}

proof fn lemma_trail_start_char_bounds(s: Seq<char>, c: char, j: int)
    requires
        j <= s.len(),
    ensures
        j >= 0 ==> 0 <= trail_start_char(s, c, j) <= j,
        forall|k: int| trail_start_char(s, c, j) <= k < j ==> #[trigger] s[k] == c,
    decreases j,
{
    if j > 0 && s[j - 1] == c {
        lemma_trail_start_char_bounds(s, c, j - 1);
    }
}

proof fn lemma_trail_start_char_all(s: Seq<char>, c: char, j: int, a: int)
    requires
        0 <= a <= j <= s.len(),
        forall|k: int| a <= k < j ==> #[trigger] s[k] == c,
    ensures
        trail_start_char(s, c, j) <= a,
    decreases j,
{
    lemma_trail_start_char_bounds(s, c, j);
    if j > a {
        assert(s[j - 1] == c);
        lemma_trail_start_char_all(s, c, j - 1, a);
    }
}

/// `s` with every leading and trailing `c` removed.
pub fn stripped_char(s: &[char], c: char) -> (r: &[char])
    ensures
        r@ == strip_char(s@, c),
{
    let n = s.len();
    let mut a: usize = 0;
    while a < n && s[a] == c
        invariant
            a <= n == s@.len(),
            lead_end_char(s@, c, a as int) == lead_end_char(s@, c, 0),
            forall|k: int| 0 <= k < a ==> #[trigger] s@[k] == c,
        decreases n - a,
    {
        a = a + 1;
    }
    let mut b: usize = n;
    while b > a && s[b - 1] == c
        invariant
            a <= b <= n == s@.len(),
            trail_start_char(s@, c, b as int) == trail_start_char(s@, c, n as int),
            forall|k: int| b <= k < n ==> #[trigger] s@[k] == c,
        decreases b,
    {
        b = b - 1;
    }
    proof {
        lemma_trail_start_char_bounds(s@, c, n as int);
        if b <= a {
            lemma_trail_start_char_all(s@, c, n as int, a as int);
        }
    }
    &s[a..b]
}

/// `str::replace("**", "")`: non-overlapping `**` pairs removed, scanning from
/// the left.
pub open spec fn remove_double_star(s: Seq<char>) -> Seq<char>
    decreases s.len(),
{
    if s.len() == 0 {
        s
    } else if s.len() >= 2 && s[0] == '*' && s[1] == '*' {
        remove_double_star(s.subrange(2, s.len() as int))
    } else {
        seq![s[0]] + remove_double_star(s.drop_first())
    }
}

/// `str::replace(c, "")`: every `c` removed.
pub open spec fn remove_char(s: Seq<char>, c: char) -> Seq<char>
    decreases s.len(),
{
    if s.len() == 0 {
        s
    } else if s.last() == c {
        remove_char(s.drop_last(), c)
    } else {
        remove_char(s.drop_last(), c).push(s.last())
    }
}

/// `s` without `**` pairs and without backquotes.
pub open spec fn strip_markup(s: Seq<char>) -> Seq<char> {
    remove_char(remove_double_star(s), '`')
}

/// Appends `s` with `**` pairs removed to `out`.
fn push_without_double_star(out: &mut Vec<char>, s: &[char])
    ensures
        final(out)@ == old(out)@ + remove_double_star(s@),
{
    let n = s.len();
    let mut i: usize = 0;
    assert(s@.subrange(0, n as int) =~= s@);
    while i < n
        invariant
            i <= n == s@.len(),
            old(out)@ + remove_double_star(s@) == out@ + remove_double_star(
                s@.subrange(i as int, n as int),
            ),
        decreases n - i,
    {
        let ghost rest = s@.subrange(i as int, n as int);
        if i + 1 < n && s[i] == '*' && s[i + 1] == '*' {
            assert(rest.subrange(2, rest.len() as int) =~= s@.subrange(i + 2, n as int));
            i = i + 2;
        } else {
            assert(rest.drop_first() =~= s@.subrange(i + 1, n as int));
            out.push(s[i]);
            assert(out@ + remove_double_star(s@.subrange(i + 1, n as int)) =~= old(out)@
                + remove_double_star(s@));
            i = i + 1;
        }
    }
    assert(s@.subrange(n as int, n as int) =~= Seq::<char>::empty());
    assert(out@ + Seq::<char>::empty() =~= out@);
}

/// `s` with `**` pairs removed and then every backquote removed.
pub fn without_markup(s: &[char]) -> (r: Vec<char>)
    ensures
        r@ == strip_markup(s@),
{
    let mut tmp: Vec<char> = Vec::new();
    push_without_double_star(&mut tmp, s);
    assert(Seq::<char>::empty() + remove_double_star(s@) =~= remove_double_star(s@));
    let mut out: Vec<char> = Vec::new();
    let mut i: usize = 0;
    assert(tmp@.take(0) =~= Seq::<char>::empty());
    while i < tmp.len()
        invariant
            i <= tmp@.len(),
            out@ == remove_char(tmp@.take(i as int), '`'),
        decreases tmp.len() - i,
    {
        assert(tmp@.take(i + 1).drop_last() =~= tmp@.take(i as int));
        if tmp[i] != '`' {
            out.push(tmp[i]);
        }
        i = i + 1;
    }
    assert(tmp@.take(tmp@.len() as int) =~= tmp@);
    out
}

/// Index of the first `c` in `s` at or after `i`, or `s.len()`.
pub open spec fn char_index(s: Seq<char>, c: char, i: int) -> int
    decreases s.len() - i,
{
    if i < 0 || i >= s.len() {
        s.len() as int
    } else if s[i] == c {
        i
    } else {
        char_index(s, c, i + 1)
    }
}

pub proof fn lemma_char_index_bounds(s: Seq<char>, c: char, i: int)
    requires
        0 <= i <= s.len(),
    ensures
        i <= char_index(s, c, i) <= s.len(),
        char_index(s, c, i) < s.len() ==> s[char_index(s, c, i)] == c,
    decreases s.len() - i,
{
    if i < s.len() && s[i] != c {
        lemma_char_index_bounds(s, c, i + 1);
    }
}

/// `str::split_once(c)`: the text before and after the first `c`.
pub open spec fn split_once(s: Seq<char>, c: char) -> Option<(Seq<char>, Seq<char>)> {
    let k = char_index(s, c, 0);
    if k >= s.len() {
        None
    } else {
        Some((s.subrange(0, k), s.subrange(k + 1, s.len() as int)))
    }
}

/// Where the first `c` at or after `i` is, or `s.len()`.
pub fn find_char(s: &[char], c: char, i: usize) -> (k: usize)
    requires
        i <= s@.len(),
    ensures
        k == char_index(s@, c, i as int),
        i <= k <= s@.len(),
{
    proof {
        lemma_char_index_bounds(s@, c, i as int);
    }
    let n = s.len();
    let mut k: usize = i;
    while k < n && s[k] != c
        invariant
            i <= k <= n == s@.len(),
            char_index(s@, c, k as int) == char_index(s@, c, i as int),
        decreases n - k,
    {
        k = k + 1;
    }
    k
}

/// `str::split(c)` on the text from `i` on: the pieces between the `c`s (an
/// empty text gives one empty piece).
pub open spec fn split_from(s: Seq<char>, c: char, i: int) -> Seq<Seq<char>>
    decreases s.len() + 1 - i,
{
    if i < 0 || i > s.len() {
        Seq::empty()
    } else {
        let k = char_index(s, c, i);
        if k < i || k >= s.len() {
            seq![s.subrange(i, s.len() as int)]
        } else {
            seq![s.subrange(i, k)] + split_from(s, c, k + 1)
        }
    }
}

/// `str::split(c)`.
pub open spec fn split_on(s: Seq<char>, c: char) -> Seq<Seq<char>> {
    split_from(s, c, 0)
}

/// HTML escaping of one character.
pub open spec fn escape_char(c: char) -> Seq<char> {
    if c == '&' {
        seq!['&', 'a', 'm', 'p', ';']
    } else if c == '<' {
        seq!['&', 'l', 't', ';']
    } else if c == '>' {
        seq!['&', 'g', 't', ';']
    } else if c == '"' {
        seq!['&', 'q', 'u', 'o', 't', ';']
    } else if c == '\'' {
        seq!['&', '#', '3', '9', ';']
    } else {
        seq![c]
    }
}

/// `s` with `&`, `<`, `>`, `"` and `'` replaced by their HTML entities.
pub open spec fn escape(s: Seq<char>) -> Seq<char>
    decreases s.len(),
{
    if s.len() == 0 {
        s
    } else {
        escape(s.drop_last()) + escape_char(s.last())
    }
}

/// Appends `v` escaped for HTML to `out`.
pub fn push_escaped(out: &mut String, v: &[char])
    ensures
        final(out)@ == old(out)@ + escape(v@),
{
    let mut i: usize = 0;
    assert(v@.take(0) =~= Seq::<char>::empty());
    while i < v.len()
        invariant
            i <= v@.len(),
            out@ == old(out)@ + escape(v@.take(i as int)),
        decreases v.len() - i,
    {
        let c = v[i];
        let ghost before = out@;
        if c == '&' {
            push_str(out, "&amp;");
            proof { reveal_strlit("&amp;"); }
        } else if c == '<' {
            push_str(out, "&lt;");
            proof { reveal_strlit("&lt;"); }
        } else if c == '>' {
            push_str(out, "&gt;");
            proof { reveal_strlit("&gt;"); }
        } else if c == '"' {
            push_str(out, "&quot;");
            proof { reveal_strlit("&quot;"); }
        } else if c == '\'' {
            push_str(out, "&#39;");
            proof { reveal_strlit("&#39;"); }
        } else {
            push_char(out, c);
        }
        assert(v@.take(i + 1).drop_last() =~= v@.take(i as int));
        assert(out@ =~= old(out)@ + escape(v@.take(i + 1)));
        i = i + 1;
    }
    assert(v@.take(v@.len() as int) =~= v@);
}

/// Escapes `&`, `<`, `>`, `"` and `'` for HTML.
pub fn escape_html(value: &str) -> (r: String)
    ensures
        r@ == escape(value@),
{
    let v = chars_of(value);
    let mut out = String::new();
    push_escaped(&mut out, v.as_slice());
    assert(Seq::<char>::empty() + escape(value@) =~= escape(value@));
    out
}

/// A character that escaped text never holds: one that could open or close a
/// tag or end an attribute value.
pub open spec fn is_markup_char(c: char) -> bool {
    c == '<' || c == '>' || c == '"' || c == '\''
}

/// Escaped text holds no `<`, `>`, `"` or `'`, so it cannot open a tag or
/// leave an attribute value.
pub proof fn lemma_escape_inert(s: Seq<char>)
    ensures
        forall|k: int| 0 <= k < escape(s).len() ==> !is_markup_char(#[trigger] escape(s)[k]),
    decreases s.len(),
{
    if s.len() > 0 {
        lemma_escape_inert(s.drop_last());
        let a = escape(s.drop_last());
        let b = escape_char(s.last());
        assert(escape(s) == a + b);
        assert forall|k: int| 0 <= k < escape(s).len() implies !is_markup_char(#[trigger] escape(s)[k]) by {
            if k < a.len() {
                assert(escape(s)[k] == a[k]);
            } else {
                assert(escape(s)[k] == b[k - a.len()]);
            }
        }
    }
}

/// Text without `&`, `<`, `>`, `"` or `'` is shown as it is, and escaping
/// joins: the escape of two texts glued is the two escapes glued.
pub proof fn lemma_escape_plain(s: Seq<char>, t: Seq<char>)
    ensures
        (forall|k: int| 0 <= k < s.len() ==> !is_markup_char(#[trigger] s[k]) && s[k] != '&')
            ==> escape(s) == s,
        escape(s + t) == escape(s) + escape(t),
    decreases s.len() + t.len(),
{
    if s.len() > 0 {
        lemma_escape_plain(s.drop_last(), t);
        if forall|k: int| 0 <= k < s.len() ==> !is_markup_char(#[trigger] s[k]) && s[k] != '&' {
            assert forall|k: int| 0 <= k < s.drop_last().len() implies !is_markup_char(
                #[trigger] s.drop_last()[k],
            ) && s.drop_last()[k] != '&' by {
                assert(s.drop_last()[k] == s[k]);
            }
            assert(!is_markup_char(s[s.len() - 1]) && s[s.len() - 1] != '&');
            assert(escape(s) =~= s.drop_last() + seq![s.last()]);
            assert(s.drop_last() + seq![s.last()] =~= s);
        }
    }
    if t.len() > 0 {
        lemma_escape_plain(s, t.drop_last());
        assert((s + t).drop_last() =~= s + t.drop_last());
        assert((s + t).last() == t.last());
        assert(escape(s + t) == escape(s + t.drop_last()) + escape_char(t.last()));
        assert(escape(t) == escape(t.drop_last()) + escape_char(t.last()));
        assert(escape(s + t) =~= escape(s) + escape(t));
    } else {
        assert(s + t =~= s);
        assert(escape(s) + escape(t) =~= escape(s));
    }
}

} // verus!
