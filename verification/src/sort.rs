//! Sorting numbers.

use vstd::prelude::*;

verus! {

/// The order of the numbers.
pub open spec fn order() -> spec_fn(i128, i128) -> bool {
    |a: i128, b: i128| a <= b
}

/// The numbers in ascending order.
pub open spec fn ascending(s: Seq<i128>) -> Seq<i128> {
    s.sort_by(order())
}

/// Whether numbers stand in ascending order.
pub open spec fn is_ascending(s: Seq<i128>) -> bool {
    forall|i: int, j: int| 0 <= i < j < s.len() ==> s[i] <= s[j]
}

/// An ascending arrangement of numbers is the ascending arrangement.
pub proof fn lemma_ascending_is_unique(s: Seq<i128>, t: Seq<i128>)
    requires
        is_ascending(t),
        t.to_multiset() == s.to_multiset(),
    ensures
        t == ascending(s),
{
    let f = order();
    assert(vstd::relations::total_ordering(f));
    s.lemma_sort_by_ensures(f);
    assert(vstd::relations::sorted_by(t, f));
    vstd::seq_lib::lemma_sorted_unique(t, s.sort_by(f), f);
}

/// The ascending arrangement is ascending and holds the same numbers.
pub proof fn lemma_ascending(s: Seq<i128>)
    ensures
        is_ascending(ascending(s)),
        ascending(s).to_multiset() == s.to_multiset(),
        ascending(s).len() == s.len(),
{
    let f = order();
    assert(vstd::relations::total_ordering(f));
    s.lemma_sort_by_ensures(f);
    let t = s.sort_by(f);
    assert forall|i: int, j: int| 0 <= i < j < t.len() implies t[i] <= t[j] by {
        assert(f(t[i], t[j]));
    }
    s.to_multiset_ensures();
    t.to_multiset_ensures();
}

/// Merges two ascending runs.
fn merge(a: &[i128], b: &[i128]) -> (out: Vec<i128>)
    requires
        is_ascending(a@),
        is_ascending(b@),
        a@.len() + b@.len() <= usize::MAX,
    ensures
        is_ascending(out@),
        out@.to_multiset() == (a@ + b@).to_multiset(),
        out@.len() == a@.len() + b@.len(),
{
    let mut out: Vec<i128> = Vec::new();
    let mut i: usize = 0;
    let mut j: usize = 0;
    assert(a@.take(0) + b@.take(0) == out@);
    while i < a.len() || j < b.len()
        invariant
            i <= a@.len(),
            j <= b@.len(),
            is_ascending(a@),
            is_ascending(b@),
            out@.len() == i + j,
            is_ascending(out@),
            out@.to_multiset() == (a@.take(i as int) + b@.take(j as int)).to_multiset(),
            forall|k: int| 0 <= k < out@.len() && i < a@.len() ==> #[trigger] out@[k] <= a@[i as int],
            forall|k: int| 0 <= k < out@.len() && j < b@.len() ==> #[trigger] out@[k] <= b@[j as int],
        decreases a@.len() - i + b@.len() - j,
    {
        let from_a = if i == a.len() {
            false
        } else if j == b.len() {
            true
        } else {
            a[i] <= b[j]
        };
        let ghost before = out@;
        let ghost x = a@.take(i as int);
        let ghost y = b@.take(j as int);
        if from_a {
            let v: i128 = a[i];
            out.push(v);
            proof {
                assert(a@.take(i + 1) == x.push(v));
                lemma_push_left(x, y, v);
                before.to_multiset_ensures();
            }
            i += 1;
        } else {
            let v: i128 = b[j];
            out.push(v);
            proof {
                assert(b@.take(j + 1) == y.push(v));
                assert(x + y.push(v) == (x + y).push(v));
                (x + y).to_multiset_ensures();
                before.to_multiset_ensures();
            }
            j += 1;
        }
    }
    assert(a@.take(i as int) == a@);
    assert(b@.take(j as int) == b@);
    out
}

/// One more number on the left is one more number.
proof fn lemma_push_left(x: Seq<i128>, y: Seq<i128>, v: i128)
    ensures
        (x.push(v) + y).to_multiset() == (x + y).to_multiset().insert(v),
{
    assert(x.push(v) + y == (x + y).insert(x.len() as int, v));
    vstd::seq_lib::to_multiset_insert(x + y, x.len() as int, v);
}

/// Two parts hold what the whole holds, whatever order each is in.
proof fn lemma_parts(a: Seq<i128>, b: Seq<i128>, x: Seq<i128>, y: Seq<i128>)
    requires
        x.to_multiset() == a.to_multiset(),
        y.to_multiset() == b.to_multiset(),
    ensures
        (x + y).to_multiset() == (a + b).to_multiset(),
{
    vstd::seq_lib::lemma_multiset_commutative(a, b);
    vstd::seq_lib::lemma_multiset_commutative(x, y);
}

/// A copy of a stretch of numbers.
fn copied(s: &[i128], from: usize, to: usize) -> (out: Vec<i128>)
    requires
        from <= to <= s@.len(),
    ensures
        out@ == s@.subrange(from as int, to as int),
{
    let mut out: Vec<i128> = Vec::new();
    let mut i: usize = from;
    while i < to
        invariant
            from <= i <= to <= s@.len(),
            out@ == s@.subrange(from as int, i as int),
        decreases to - i,
    {
        assert(s@.subrange(from as int, i + 1) == s@.subrange(from as int, i as int).push(
            s@[i as int],
        ));
        out.push(s[i]);
        i += 1;
    }
    out
}

/// The numbers in ascending order.
pub fn sorted(s: &[i128]) -> (out: Vec<i128>)
    ensures
        out@ == ascending(s@),
        is_ascending(out@),
        out@.len() == s@.len(),
        out@.to_multiset() == s@.to_multiset(),
    decreases s@.len(),
{
    if s.len() <= 1 {
        let out = copied(s, 0, s.len());
        assert(out@ == s@);
        proof {
            lemma_ascending_is_unique(s@, out@);
        }
        return out;
    }
    let middle: usize = s.len() / 2;
    let left = copied(s, 0, middle);
    let right = copied(s, middle, s.len());
    let a = sorted(left.as_slice());
    let b = sorted(right.as_slice());
    assert(left@ + right@ == s@);
    let out = merge(a.as_slice(), b.as_slice());
    proof {
        lemma_parts(left@, right@, a@, b@);
        lemma_ascending_is_unique(s@, out@);
    }
    out
}

} // verus!
