//! The stable ordering that autocompletion and history search present their
//! suggestions in.

use vstd::prelude::*;

verus! {

broadcast use vstd::seq_lib::group_to_multiset_ensures;

/// What a suggestion is ordered by: `group` first, then `rank`, then `recency`
/// (newest first), then `text` (by code point), then `len`.
pub struct SortKey {
    pub group: u8,
    pub rank: i64,
    pub recency: i128,
    pub text: Vec<char>,
    pub len: usize,
}

pub struct KeyView {
    pub group: u8,
    pub rank: i64,
    pub recency: i128,
    pub text: Seq<char>,
    pub len: usize,
}

impl View for SortKey {
    type V = KeyView;

    open spec fn view(&self) -> KeyView {
        KeyView {
            group: self.group,
            rank: self.rank,
            recency: self.recency,
            text: self.text@,
            len: self.len,
        }
    }
}

/// Lexicographic order of character sequences by code point (the order of
/// `str`, whose UTF-8 bytes compare the same way).
pub open spec fn text_lt(a: Seq<char>, b: Seq<char>) -> bool
    decreases a.len(),
{
    if a.len() == 0 {
        b.len() > 0
    } else if b.len() == 0 {
        false
    } else if a[0] != b[0] {
        a[0] < b[0]
    } else {
        text_lt(a.drop_first(), b.drop_first())
    }
}

/// The strict order of sort keys.
pub open spec fn key_lt(x: KeyView, y: KeyView) -> bool {
    if x.group != y.group {
        x.group < y.group
    } else if x.rank != y.rank {
        x.rank < y.rank
    } else if x.recency != y.recency {
        x.recency > y.recency
    } else if x.text != y.text {
        text_lt(x.text, y.text)
    } else {
        x.len < y.len
    }
}

pub proof fn lemma_text_lt_irrefl(a: Seq<char>)
    ensures
        !text_lt(a, a),
    decreases a.len(),
{
    if a.len() > 0 {
        lemma_text_lt_irrefl(a.drop_first());
    }
}

pub proof fn lemma_text_lt_trans(a: Seq<char>, b: Seq<char>, c: Seq<char>)
    requires
        text_lt(a, b),
        text_lt(b, c),
    ensures
        text_lt(a, c),
    decreases a.len(),
{
    if a.len() > 0 && b.len() > 0 && c.len() > 0 {
        if a[0] == b[0] && b[0] == c[0] {
            lemma_text_lt_trans(a.drop_first(), b.drop_first(), c.drop_first());
        }
    }
}

pub proof fn lemma_text_lt_total(a: Seq<char>, b: Seq<char>)
    ensures
        a == b || text_lt(a, b) || text_lt(b, a),
    decreases a.len(),
{
    if a.len() > 0 && b.len() > 0 {
        if a[0] == b[0] {
            lemma_text_lt_total(a.drop_first(), b.drop_first());
            if a.drop_first() == b.drop_first() {
                assert(a =~= seq![a[0]] + a.drop_first());
                assert(b =~= seq![b[0]] + b.drop_first());
            }
        }
    } else if a.len() == 0 && b.len() == 0 {
        assert(a =~= b);
    }
}

pub proof fn lemma_key_lt_irrefl(x: KeyView)
    ensures
        !key_lt(x, x),
{
    lemma_text_lt_irrefl(x.text);
}

pub proof fn lemma_key_lt_trans(x: KeyView, y: KeyView, z: KeyView)
    requires
        key_lt(x, y),
        key_lt(y, z),
    ensures
        key_lt(x, z),
{
    if x.group == y.group && y.group == z.group && x.rank == y.rank && y.rank == z.rank
        && x.recency == y.recency && y.recency == z.recency {
        if x.text != y.text && y.text != z.text {
            lemma_text_lt_trans(x.text, y.text, z.text);
            if x.text == z.text {
                lemma_text_lt_trans(y.text, z.text, y.text);
                lemma_text_lt_irrefl(y.text);
            }
        } else if x.text != y.text && y.text == z.text {
        } else if x.text == y.text && y.text != z.text {
        }
    }
}

pub proof fn lemma_key_lt_total(x: KeyView, y: KeyView)
    ensures
        x == y || key_lt(x, y) || key_lt(y, x),
{
    lemma_text_lt_total(x.text, y.text);
}

pub fn text_less(a: &Vec<char>, b: &Vec<char>) -> (r: bool)
    ensures
        r == text_lt(a@, b@),
{
    let mut i: usize = 0;
    assert(a@.skip(0) == a@);
    assert(b@.skip(0) == b@);
    while i < a.len() && i < b.len() && a[i] == b[i]
        invariant
            i <= a.len(),
            i <= b.len(),
            text_lt(a@, b@) == text_lt(a@.skip(i as int), b@.skip(i as int)),
        decreases a.len() - i,
    {
        assert(a@.skip(i as int).drop_first() == a@.skip(i + 1));
        assert(b@.skip(i as int).drop_first() == b@.skip(i + 1));
        i += 1;
    }
    if i == a.len() {
        i < b.len()
    } else if i == b.len() {
        false
    } else {
        assert(a@.skip(i as int)[0] == a@[i as int]);
        assert(b@.skip(i as int)[0] == b@[i as int]);
        a[i] < b[i]
    }
}

fn text_equal(a: &Vec<char>, b: &Vec<char>) -> (r: bool)
    ensures
        r == (a@ == b@),
{
    if a.len() != b.len() {
        return false;
    }
    let mut i: usize = 0;
    while i < a.len()
        invariant
            a.len() == b.len(),
            i <= a.len(),
            forall|j: int| 0 <= j < i ==> a@[j] == b@[j],
        decreases a.len() - i,
    {
        if a[i] != b[i] {
            return false;
        }
        i += 1;
    }
    assert(a@ =~= b@);
    true
}

pub fn key_less(x: &SortKey, y: &SortKey) -> (r: bool)
    ensures
        r == key_lt(x@, y@),
{
    if x.group != y.group {
        x.group < y.group
    } else if x.rank != y.rank {
        x.rank < y.rank
    } else if x.recency != y.recency {
        x.recency > y.recency
    } else if !text_equal(&x.text, &y.text) {
        text_less(&x.text, &y.text)
    } else {
        x.len < y.len
    }
}

/// Inserts `x` after every element whose key is not greater than its own.
pub open spec fn insert_sorted<T>(s: Seq<(KeyView, T)>, x: (KeyView, T)) -> Seq<(KeyView, T)>
    decreases s.len(),
{
    if s.len() == 0 || !key_lt(x.0, s.last().0) {
        s.push(x)
    } else {
        insert_sorted(s.drop_last(), x).push(s.last())
    }
}

/// The stable sort of `s` by key: elements with equal keys keep their order.
pub open spec fn stable_sort<T>(s: Seq<(KeyView, T)>) -> Seq<(KeyView, T)>
    decreases s.len(),
{
    if s.len() == 0 {
        seq![]
    } else {
        insert_sorted(stable_sort(s.drop_last()), s.last())
    }
}

/// Keys never decrease along `s`.
pub open spec fn sorted_by_key<T>(s: Seq<(KeyView, T)>) -> bool {
    forall|i: int, j: int| 0 <= i < j < s.len() ==> !key_lt(#[trigger] s[j].0, #[trigger] s[i].0)
}

proof fn lemma_insert_at<T>(s: Seq<(KeyView, T)>, x: (KeyView, T), j: int)
    requires
        0 <= j <= s.len(),
        forall|k: int| j <= k < s.len() ==> key_lt(x.0, #[trigger] s[k].0),
        j == 0 || !key_lt(x.0, s[j - 1].0),
    ensures
        insert_sorted(s, x) == s.insert(j, x),
    decreases s.len(),
{
    if j == s.len() {
        assert(s.insert(j, x) =~= s.push(x));
    } else {
        assert(key_lt(x.0, s.last().0));
        let t = s.drop_last();
        lemma_insert_at(t, x, j);
        assert(s.insert(j, x) =~= t.insert(j, x).push(s.last()));
    }
}

/// Sorts `v` stably by key.
pub fn sort_by_key<T>(v: Vec<(SortKey, T)>) -> (r: Vec<(SortKey, T)>)
    ensures
        r@.map_values(|p: (SortKey, T)| (p.0@, p.1)) == stable_sort(
            v@.map_values(|p: (SortKey, T)| (p.0@, p.1)),
        ),
{
    let ghost input = v@.map_values(|p: (SortKey, T)| (p.0@, p.1));
    let n = v.len();
    assert(input.len() == n);
    let mut rest = v;
    let mut out: Vec<(SortKey, T)> = Vec::new();
    let mut i: usize = 0;
    while rest.len() > 0
        invariant
            input.len() == i + rest@.len(),
            input.len() <= usize::MAX,
            rest@.map_values(|p: (SortKey, T)| (p.0@, p.1)) == input.skip(i as int),
            out@.map_values(|p: (SortKey, T)| (p.0@, p.1)) == stable_sort(input.take(i as int)),
        decreases rest.len(),
    {
        let x = rest.remove(0);
        let ghost xv = (x.0@, x.1);
        assert(input[i as int] == xv) by {
            assert(input.skip(i as int)[0] == input[i as int]);
        }
        let ghost sorted = out@.map_values(|p: (SortKey, T)| (p.0@, p.1));
        let mut j = out.len();
        while j > 0 && key_less(&x.0, &out[j - 1].0)
            invariant
                j <= out.len(),
                xv.0 == x.0@,
                sorted == out@.map_values(|p: (SortKey, T)| (p.0@, p.1)),
                forall|k: int| j <= k < sorted.len() ==> key_lt(xv.0, #[trigger] sorted[k].0),
            decreases j,
        {
            assert(sorted[j - 1] == (out@[j - 1].0@, out@[j - 1].1));
            assert(key_lt(xv.0, sorted[j - 1].0));
            j -= 1;
        }
        proof {
            lemma_insert_at(sorted, xv, j as int);
            assert(input.take(i + 1).drop_last() =~= input.take(i as int));
        }
        out.insert(j, x);
        assert(out@.map_values(|p: (SortKey, T)| (p.0@, p.1)) =~= sorted.insert(j as int, xv));
        assert(input.skip(i as int).drop_first() =~= input.skip(i + 1));
        i += 1;
    }
    assert(input.take(i as int) =~= input);
    out
}

/// Inserting into a sorted sequence keeps it sorted and adds exactly the element.
pub proof fn lemma_insert_sorted_ok<T>(s: Seq<(KeyView, T)>, x: (KeyView, T))
    requires
        sorted_by_key(s),
    ensures
        sorted_by_key(insert_sorted(s, x)),
        insert_sorted(s, x).to_multiset() == s.to_multiset().insert(x),
    decreases s.len(),
{
    if s.len() == 0 || !key_lt(x.0, s.last().0) {
        let r = s.push(x);
        assert forall|i: int, j: int| 0 <= i < j < r.len() implies !key_lt(#[trigger] r[j].0, #[trigger] r[i].0) by {
            if j == s.len() && i < s.len() {
                // s[i] <= s.last() <= x
                if key_lt(x.0, s[i].0) {
                    lemma_key_lt_total(s[i].0, s.last().0);
                    if i < s.len() - 1 {
                        assert(!key_lt(s[s.len() - 1].0, s[i].0));
                    }
                    if key_lt(s[i].0, s.last().0) {
                        lemma_key_lt_trans(x.0, s[i].0, s.last().0);
                    }
                }
            }
        }
    } else {
        let t = s.drop_last();
        let last = s.last();
        assert(sorted_by_key(t)) by {
            assert forall|i: int, j: int| 0 <= i < j < t.len() implies !key_lt(#[trigger] t[j].0, #[trigger] t[i].0) by {
                assert(t[i] == s[i] && t[j] == s[j]);
            }
        }
        lemma_insert_sorted_ok(t, x);
        let u = insert_sorted(t, x);
        let r = u.push(last);
        // every element of u is either x or an element of t, all of which are <= last
        assert forall|k: int| 0 <= k < u.len() implies !key_lt(last.0, #[trigger] u[k].0) by {
            assert(u.to_multiset().count(u[k]) > 0);
            assert(u.to_multiset() == t.to_multiset().insert(x));
            if u[k] == x {
                lemma_key_lt_irrefl(x.0);
                if key_lt(last.0, x.0) {
                    lemma_key_lt_trans(x.0, last.0, x.0);
                }
            } else {
                assert(t.to_multiset().count(u[k]) > 0);
                assert(t.contains(u[k]));
                let m = choose|m: int| 0 <= m < t.len() && t[m] == u[k];
                assert(s[m] == t[m]);
                assert(!key_lt(s[s.len() - 1].0, s[m].0));
            }
        }
        assert forall|i: int, j: int| 0 <= i < j < r.len() implies !key_lt(#[trigger] r[j].0, #[trigger] r[i].0) by {
            if j == u.len() {
                assert(r[j] == last);
                assert(r[i] == u[i]);
            } else {
                assert(r[i] == u[i] && r[j] == u[j]);
            }
        }
        assert(s =~= t.push(last));
    }
}

/// The stable sort orders its input by key and keeps every element.
pub proof fn lemma_stable_sort_ok<T>(s: Seq<(KeyView, T)>)
    ensures
        sorted_by_key(stable_sort(s)),
        stable_sort(s).to_multiset() == s.to_multiset(),
    decreases s.len(),
{
    if s.len() > 0 {
        lemma_stable_sort_ok(s.drop_last());
        lemma_insert_sorted_ok(stable_sort(s.drop_last()), s.last());
        assert(s =~= s.drop_last().push(s.last()));
    } else {
        assert(stable_sort(s).to_multiset() =~= s.to_multiset());
    }
}

} // verus!
