//! Lexicographic order on character sequences and an ordered set of rule keys.
//!
//! The order compares Unicode scalar values one by one, which is the order in
//! which `String`s compare (their UTF-8 bytes compare the same way).
use vstd::prelude::*;

verus! {

/// `a` sorts strictly before `b`, looking at positions `i..` only.
pub open spec fn lex_lt_from(a: Seq<char>, b: Seq<char>, i: int) -> bool
    decreases a.len() - i,
{
    if i >= a.len() {
        i < b.len()
    } else if i >= b.len() {
        false
    } else if a[i] != b[i] {
        (a[i] as int) < (b[i] as int)
    } else {
        lex_lt_from(a, b, i + 1)
    }
}

/// `a` sorts strictly before `b` in lexicographic order.
pub open spec fn lex_lt(a: Seq<char>, b: Seq<char>) -> bool {
    lex_lt_from(a, b, 0)
}

/// Each element sorts strictly before the next one (hence no duplicates).
pub open spec fn strictly_sorted(s: Seq<Seq<char>>) -> bool {
    forall|i: int, j: int| 0 <= i < j < s.len() ==> lex_lt(#[trigger] s[i], #[trigger] s[j])
}

/// The character views of a sequence of strings.
pub open spec fn views(v: Seq<String>) -> Seq<Seq<char>> {
    v.map_values(|s: String| s@)
}

proof fn lemma_lex_irrefl_from(a: Seq<char>, i: int)
    requires
        0 <= i,
    ensures
        !lex_lt_from(a, a, i),
    decreases a.len() - i,
{
    if i < a.len() {
        lemma_lex_irrefl_from(a, i + 1);
    }
}

proof fn lemma_lex_trans_from(a: Seq<char>, b: Seq<char>, c: Seq<char>, i: int)
    requires
        0 <= i,
        lex_lt_from(a, b, i),
        lex_lt_from(b, c, i),
    ensures
        lex_lt_from(a, c, i),
    decreases a.len() - i,
{
    if i < a.len() && i < b.len() && i < c.len() && a[i] == b[i] && b[i] == c[i] {
        lemma_lex_trans_from(a, b, c, i + 1);
    }
}

proof fn lemma_lex_total_from(a: Seq<char>, b: Seq<char>, i: int)
    requires
        0 <= i <= a.len(),
        i <= b.len(),
        a.subrange(0, i) == b.subrange(0, i),
        a != b,
    ensures
        lex_lt_from(a, b, i) || lex_lt_from(b, a, i),
    decreases a.len() - i,
{
    if i < a.len() && i < b.len() && a[i] == b[i] {
        assert(a.subrange(0, i + 1) =~= a.subrange(0, i).push(a[i]));
        assert(b.subrange(0, i + 1) =~= b.subrange(0, i).push(b[i]));
        lemma_lex_total_from(a, b, i + 1);
    } else if i == a.len() && i == b.len() {
        assert(a =~= a.subrange(0, i));
        assert(b =~= b.subrange(0, i));
    } else if i < a.len() && i < b.len() {
        assert(a[i] != b[i]);
        assert((a[i] as int) != (b[i] as int));
    }
}

/// The order is irreflexive, transitive and total.
pub proof fn lemma_lex_order(a: Seq<char>, b: Seq<char>, c: Seq<char>)
    ensures
        !lex_lt(a, a),
        lex_lt(a, b) && lex_lt(b, c) ==> lex_lt(a, c),
        a != b ==> lex_lt(a, b) || lex_lt(b, a),
        lex_lt(a, b) ==> !lex_lt(b, a),
{
    lemma_lex_irrefl_from(a, 0);
    if lex_lt(a, b) && lex_lt(b, c) {
        lemma_lex_trans_from(a, b, c, 0);
    }
    if a != b {
        assert(a.subrange(0, 0) =~= b.subrange(0, 0));
        lemma_lex_total_from(a, b, 0);
    }
    if lex_lt(a, b) && lex_lt(b, a) {
        lemma_lex_trans_from(a, b, a, 0);
        lemma_lex_irrefl_from(a, 0);
    }
}

/// Whether `a` sorts strictly before `b`.
pub fn lex_less(a: &[char], b: &[char]) -> (r: bool)
    ensures
        r == lex_lt(a@, b@),
{
    let mut i: usize = 0;
    while i < a.len() && i < b.len() && a[i] == b[i]
        invariant
            i <= a@.len(),
            i <= b@.len(),
            lex_lt_from(a@, b@, i as int) == lex_lt(a@, b@),
        decreases a.len() - i,
    {
        i = i + 1;
    }
    if i >= a.len() {
        i < b.len()
    } else if i >= b.len() {
        false
    } else {
        a[i] < b[i]
    }
}

/// Whether the string `a` sorts strictly before the string `b`.
pub fn str_less(a: &str, b: &str) -> (r: bool)
    ensures
        r == lex_lt(a@, b@),
{
    let x = crate::text::chars_of(a);
    let y = crate::text::chars_of(b);
    lex_less(x.as_slice(), y.as_slice())
}

/// Whether two strings hold the same characters.
pub fn str_eq(a: &str, b: &str) -> (r: bool)
    ensures
        r == (a@ == b@),
{
    let x = crate::text::chars_of(a);
    let y = crate::text::chars_of(b);
    crate::text::same_chars(x.as_slice(), y.as_slice())
}

/// A set of rule keys, kept in ascending lexicographic order.
pub struct RuleSet {
    keys: Vec<String>,
}

impl View for RuleSet {
    type V = Set<Seq<char>>;

    closed spec fn view(&self) -> Set<Seq<char>> {
        views(self.keys@).to_set()
    }
}

impl RuleSet {
    /// The keys in ascending order.
    pub closed spec fn ordered(&self) -> Seq<Seq<char>> {
        views(self.keys@)
    }

    /// The keys are strictly ascending.
    pub closed spec fn wf(&self) -> bool {
        strictly_sorted(views(self.keys@))
    }

    /// An empty set.
    pub fn new() -> (s: Self)
        ensures
            s.wf(),
            s@ == Set::<Seq<char>>::empty(),
            s.ordered() == Seq::<Seq<char>>::empty(),
    {
        let s = RuleSet { keys: Vec::new() };
        assert(views(s.keys@) =~= Seq::<Seq<char>>::empty());
        assert(views(s.keys@).to_set() =~= Set::<Seq<char>>::empty());
        s
    }

    /// The set's elements are exactly the keys listed by `ordered`.
    pub proof fn lemma_view_is_ordered(&self)
        ensures
            self@ == self.ordered().to_set(),
    {
    }

    /// A well-formed set lists its keys strictly ascending.
    pub proof fn lemma_wf_sorted(&self)
        requires
            self.wf(),
        ensures
            strictly_sorted(self.ordered()),
    {
    }

    /// Number of keys.
    pub fn len(&self) -> (n: usize)
        requires
            self.wf(),
        ensures
            n == self@.len(),
            n == self.ordered().len(),
    {
        proof {
            lemma_sorted_distinct(views(self.keys@));
            views(self.keys@).unique_seq_to_set();
        }
        self.keys.len()
    }

    /// The keys in ascending order.
    pub fn as_vec(&self) -> (v: &Vec<String>)
        ensures
            views(v@) == self.ordered(),
    {
        &self.keys
    }

    /// Whether `key` is in the set.
    pub fn contains(&self, key: &str) -> (b: bool)
        ensures
            b == self@.contains(key@),
    {
        let mut i: usize = 0;
        while i < self.keys.len()
            invariant
                i <= self.keys@.len(),
                forall|k: int| 0 <= k < i ==> views(self.keys@)[k] != key@,
            decreases self.keys.len() - i,
        {
            if str_eq(self.keys[i].as_str(), key) {
                assert(views(self.keys@)[i as int] == key@);
                assert(views(self.keys@).contains(key@));
                return true;
            }
            i = i + 1;
        }
        assert(!views(self.keys@).contains(key@));
        false
    }

    /// Adds `key`; returns whether it was not present before.
    pub fn insert(&mut self, key: String) -> (fresh: bool)
        requires
            old(self).wf(),
        ensures
            final(self).wf(),
            final(self)@ == old(self)@.insert(key@),
            fresh == !old(self)@.contains(key@),
    {
        let ghost old_v = views(self.keys@);
        let n = self.keys.len();
        let mut i: usize = 0;
        while i < n && str_less(self.keys[i].as_str(), key.as_str())
            invariant
                i <= n == self.keys@.len(),
                old_v == views(self.keys@),
                strictly_sorted(old_v),
                forall|k: int| 0 <= k < i ==> lex_lt(#[trigger] old_v[k], key@),
            decreases n - i,
        {
            i = i + 1;
        }
        proof {
            // Every key from `i` on sorts at or after `key`.
            assert forall|k: int| i <= k < n implies !lex_lt(#[trigger] old_v[k], key@) by {
                if k > i {
                    assert(lex_lt(old_v[i as int], old_v[k]));
                    lemma_lex_order(old_v[i as int], old_v[k], key@);
                    if lex_lt(old_v[k], key@) {
                        lemma_lex_order(old_v[i as int], old_v[k], key@);
                        assert(lex_lt(old_v[i as int], key@));
                    }
                }
            }
        }
        if i < n && str_eq(self.keys[i].as_str(), key.as_str()) {
            assert(old_v.to_set() =~= old_v.to_set().insert(key@)) by {
                assert(old_v[i as int] == key@);
            }
            return false;
        }
        proof {
            assert forall|k: int| 0 <= k < n implies old_v[k] != key@ by {
                if k < i {
                    lemma_lex_order(old_v[k], key@, key@);
                } else if k > i {
                    lemma_lex_order(old_v[i as int], old_v[k], key@);
                    lemma_lex_order(key@, old_v[i as int], old_v[k]);
                    lemma_lex_order(old_v[k], key@, key@);
                }
            }
            if i < n {
                lemma_lex_order(old_v[i as int], key@, key@);
            }
        }
        self.keys.insert(i, key);
        proof {
            let new_v = views(self.keys@);
            assert(new_v =~= old_v.subrange(0, i as int).push(key@) + old_v.subrange(
                i as int,
                n as int,
            ));
            assert forall|a: int, b: int| 0 <= a < b < new_v.len() implies lex_lt(
                #[trigger] new_v[a],
                #[trigger] new_v[b],
            ) by {
                if a < i && b == i {
                } else if a < i && b > i {
                    assert(new_v[b] == old_v[b - 1]);
                } else if a == i && b > i {
                    assert(new_v[b] == old_v[b - 1]);
                    assert(!lex_lt(old_v[b - 1], key@));
                    assert(old_v[b - 1] != key@);
                    lemma_lex_order(old_v[b - 1], key@, key@);
                } else if a > i {
                    assert(new_v[a] == old_v[a - 1]);
                    assert(new_v[b] == old_v[b - 1]);
                }
            }
            assert forall|x: Seq<char>| new_v.contains(x) <==> old_v.contains(x) || x == key@ by {
                if new_v.contains(x) {
                    let k = choose|k: int| 0 <= k < new_v.len() && new_v[k] == x;
                    if k < i {
                        assert(old_v[k] == x);
                    } else if k > i {
                        assert(old_v[k - 1] == x);
                    }
                }
                if old_v.contains(x) {
                    let k = choose|k: int| 0 <= k < old_v.len() && old_v[k] == x;
                    if k < i {
                        assert(new_v[k] == x);
                    } else {
                        assert(new_v[k + 1] == x);
                    }
                }
                if x == key@ {
                    assert(new_v[i as int] == x);
                }
            }
            assert(new_v.to_set() =~= old_v.to_set().insert(key@));
        }
        true
    }

    /// Consumes the set and returns its keys in ascending order.
    pub fn into_vec(self) -> (v: Vec<String>)
        ensures
            views(v@) == self.ordered(),
    {
        self.keys
    }
}

/// A strictly sorted sequence has no repeated element.
pub proof fn lemma_sorted_distinct(s: Seq<Seq<char>>)
    requires
        strictly_sorted(s),
    ensures
        s.no_duplicates(),
{
    assert forall|i: int, j: int| 0 <= i < s.len() && 0 <= j < s.len() && i != j implies s[i]
        != s[j] by {
        if i < j {
            assert(lex_lt(s[i], s[j]));
            lemma_lex_order(s[i], s[j], s[j]);
        } else {
            assert(lex_lt(s[j], s[i]));
            lemma_lex_order(s[j], s[i], s[i]);
        }
    }
}

/// Two strictly sorted sequences with the same elements are equal: the order
/// and the set pin a key list down.
pub proof fn lemma_sorted_unique(a: Seq<Seq<char>>, b: Seq<Seq<char>>)
    requires
        strictly_sorted(a),
        strictly_sorted(b),
        a.to_set() == b.to_set(),
    ensures
        a == b,
    decreases a.len(),
{
    lemma_sorted_distinct(a);
    lemma_sorted_distinct(b);
    a.unique_seq_to_set();
    b.unique_seq_to_set();
    if a.len() > 0 {
        // Both last elements are the maximum of the common set.
        let x = a.last();
        let y = b.last();
        assert(a.contains(x));
        assert(a.to_set().contains(x));
        assert(b.to_set().contains(x));
        assert(b.to_set().contains(y));
        assert(a.to_set().contains(y));
        if x != y {
            let i = choose|i: int| 0 <= i < b.len() && b[i] == x;
            let j = choose|j: int| 0 <= j < a.len() && a[j] == y;
            assert(lex_lt(b[i], y));
            assert(lex_lt(a[j], x));
            lemma_lex_order(x, y, x);
        }
        let a2 = a.drop_last();
        let b2 = b.drop_last();
        assert forall|z: Seq<char>| a2.to_set().contains(z) <==> b2.to_set().contains(z) by {
            if a2.contains(z) {
                let k = choose|k: int| 0 <= k < a2.len() && a2[k] == z;
                assert(a.contains(z));
                assert(b.to_set().contains(z));
                assert(z != x);
                let m = choose|m: int| 0 <= m < b.len() && b[m] == z;
                assert(m != b.len() - 1);
                assert(b2[m] == z);
            }
            if b2.contains(z) {
                let k = choose|k: int| 0 <= k < b2.len() && b2[k] == z;
                assert(b.contains(z));
                assert(a.to_set().contains(z));
                assert(z != y);
                let m = choose|m: int| 0 <= m < a.len() && a[m] == z;
                assert(m != a.len() - 1);
                assert(a2[m] == z);
            }
        }
        assert(a2.to_set() =~= b2.to_set());
        lemma_sorted_unique(a2, b2);
        assert(a =~= a2.push(x));
        assert(b =~= b2.push(y));
    } else {
        if b.len() > 0 {
            assert(b.to_set().contains(b[0]));
        }
    }
}

} // verus!
