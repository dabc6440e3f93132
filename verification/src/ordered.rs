//! Strictly increasing vectors of numbers and of pairs of numbers, used as
//! sets: search, insertion and removal that keep the order.

use vstd::prelude::*;

verus! {

/// Whether each element of `s` is smaller than every later one.
pub open spec fn increasing(s: Seq<u32>) -> bool {
    forall|i: int, j: int| 0 <= i < j < s.len() ==> s[i] < s[j]
}

/// The order on pairs: by the first number, then by the second.
pub open spec fn pair_lt(a: (u32, u32), b: (u32, u32)) -> bool {
    a.0 < b.0 || (a.0 == b.0 && a.1 < b.1)
}

/// Whether each pair of `s` comes before every later one.
pub open spec fn increasing_pairs(s: Seq<(u32, u32)>) -> bool {
    forall|i: int, j: int| 0 <= i < j < s.len() ==> pair_lt(s[i], s[j])
}

/// Inserting an element adds it to the set of elements.
pub proof fn lemma_insert_to_set<T>(s: Seq<T>, i: int, x: T)
    requires
        0 <= i <= s.len(),
    ensures
        s.insert(i, x).to_set() == s.to_set().insert(x),
{
    let t = s.insert(i, x);
    assert forall|y: T| t.to_set().contains(y) <==> s.to_set().insert(x).contains(y) by {
        if t.contains(y) {
            let k = choose|k: int| 0 <= k < t.len() && t[k] == y;
            if k < i {
                assert(s[k] == y);
            } else if k > i {
                assert(s[k - 1] == y);
            }
        }
        if s.contains(y) {
            let k = choose|k: int| 0 <= k < s.len() && s[k] == y;
            if k < i {
                assert(t[k] == y);
            } else {
                assert(t[k + 1] == y);
            }
        }
        if y == x {
            assert(t[i] == y);
        }
    }
    assert(t.to_set() =~= s.to_set().insert(x));
}

/// Removing an element of a sequence without repetitions takes it out of
/// the set of elements.
pub proof fn lemma_remove_to_set<T>(s: Seq<T>, i: int)
    requires
        0 <= i < s.len(),
        s.no_duplicates(),
    ensures
        s.remove(i).to_set() == s.to_set().remove(s[i]),
{
    let t = s.remove(i);
    assert forall|y: T| t.to_set().contains(y) <==> s.to_set().remove(s[i]).contains(y) by {
        if t.contains(y) {
            let k = choose|k: int| 0 <= k < t.len() && t[k] == y;
            if k < i {
                assert(s[k] == y);
            } else {
                assert(s[k + 1] == y);
            }
        }
        if s.contains(y) && y != s[i] {
            let k = choose|k: int| 0 <= k < s.len() && s[k] == y;
            if k < i {
                assert(t[k] == y);
            } else {
                assert(t[k - 1] == y);
            }
        }
    }
    assert(t.to_set() =~= s.to_set().remove(s[i]));
}

/// An increasing sequence holds no number twice.
pub proof fn lemma_increasing_no_duplicates(s: Seq<u32>)
    requires
        increasing(s),
    ensures
        s.no_duplicates(),
{
    assert forall|i: int, j: int| 0 <= i < s.len() && 0 <= j < s.len() && i != j implies s[i]
        != s[j] by {
        if i < j {
            assert(s[i] < s[j]);
        } else {
            assert(s[j] < s[i]);
        }
    }
}

/// An increasing sequence of pairs holds no pair twice.
pub proof fn lemma_increasing_pairs_no_duplicates(s: Seq<(u32, u32)>)
    requires
        increasing_pairs(s),
    ensures
        s.no_duplicates(),
{
    assert forall|i: int, j: int| 0 <= i < s.len() && 0 <= j < s.len() && i != j implies s[i]
        != s[j] by {
        if i < j {
            assert(pair_lt(s[i], s[j]));
        } else {
            assert(pair_lt(s[j], s[i]));
        }
    }
}

/// Two increasing sequences with the same elements are the same sequence.
pub proof fn lemma_increasing_unique(a: Seq<u32>, b: Seq<u32>)
    requires
        increasing(a),
        increasing(b),
        a.to_set() == b.to_set(),
    ensures
        a == b,
    decreases a.len(),
{
    lemma_increasing_no_duplicates(a);
    lemma_increasing_no_duplicates(b);
    a.unique_seq_to_set();
    b.unique_seq_to_set();
    if a.len() > 0 {
        let x = a.last();
        let y = b.last();
        assert(a.to_set().contains(x));
        assert(b.to_set().contains(y));
        assert(b.contains(x));
        assert(a.contains(y));
        let i = choose|i: int| 0 <= i < b.len() && b[i] == x;
        let j = choose|j: int| 0 <= j < a.len() && a[j] == y;
        assert(x == y) by {
            if i < b.len() - 1 {
                assert(b[i] < b[b.len() - 1]);
            }
            if j < a.len() - 1 {
                assert(a[j] < a[a.len() - 1]);
            }
        }
        lemma_remove_to_set(a, a.len() - 1);
        lemma_remove_to_set(b, b.len() - 1);
        assert(a.remove(a.len() - 1) =~= a.drop_last());
        assert(b.remove(b.len() - 1) =~= b.drop_last());
        lemma_increasing_unique(a.drop_last(), b.drop_last());
        assert(a =~= a.drop_last().push(x));
        assert(b =~= b.drop_last().push(y));
    } else {
        assert(a =~= b);
    }
}

/// Two increasing sequences of pairs with the same elements are the same
/// sequence.
pub proof fn lemma_increasing_pairs_unique(a: Seq<(u32, u32)>, b: Seq<(u32, u32)>)
    requires
        increasing_pairs(a),
        increasing_pairs(b),
        a.to_set() == b.to_set(),
    ensures
        a == b,
    decreases a.len(),
{
    lemma_increasing_pairs_no_duplicates(a);
    lemma_increasing_pairs_no_duplicates(b);
    a.unique_seq_to_set();
    b.unique_seq_to_set();
    if a.len() > 0 {
        let x = a.last();
        let y = b.last();
        assert(a.to_set().contains(x));
        assert(b.to_set().contains(y));
        assert(b.contains(x));
        assert(a.contains(y));
        let i = choose|i: int| 0 <= i < b.len() && b[i] == x;
        let j = choose|j: int| 0 <= j < a.len() && a[j] == y;
        assert(x == y) by {
            if i < b.len() - 1 {
                assert(pair_lt(b[i], b[b.len() - 1]));
            }
            if j < a.len() - 1 {
                assert(pair_lt(a[j], a[a.len() - 1]));
            }
        }
        lemma_remove_to_set(a, a.len() - 1);
        lemma_remove_to_set(b, b.len() - 1);
        assert(a.remove(a.len() - 1) =~= a.drop_last());
        assert(b.remove(b.len() - 1) =~= b.drop_last());
        lemma_increasing_pairs_unique(a.drop_last(), b.drop_last());
        assert(a =~= a.drop_last().push(x));
        assert(b =~= b.drop_last().push(y));
    } else {
        assert(a =~= b);
    }
}

/// The place of the first element of `v` that is not smaller than `x`.
pub fn lower_bound(v: &Vec<u32>, x: u32) -> (at: usize)
    requires
        increasing(v@),
    ensures
        at <= v.len(),
        forall|j: int| 0 <= j < at ==> v@[j] < x,
        forall|j: int| at <= j < v.len() ==> v@[j] >= x,
        v@.contains(x) <==> (at < v.len() && v@[at as int] == x),
{
    let mut lo: usize = 0;
    let mut hi: usize = v.len();
    while lo < hi
        invariant
            lo <= hi <= v.len(),
            increasing(v@),
            forall|j: int| 0 <= j < lo ==> v@[j] < x,
            forall|j: int| hi <= j < v.len() ==> v@[j] >= x,
        decreases hi - lo,
    {
        let mid: usize = lo + (hi - lo) / 2;
        if v[mid] < x {
            lo = mid + 1;
        } else {
            hi = mid;
        }
    }
    lo
}

/// Whether `a` comes before `b` in the order on pairs.
pub fn pair_before(a: (u32, u32), b: (u32, u32)) -> (out: bool)
    ensures
        out == pair_lt(a, b),
{
    a.0 < b.0 || (a.0 == b.0 && a.1 < b.1)
}

/// The place of the first pair of `v` that does not come before `x`.
pub fn lower_bound_pairs(v: &Vec<(u32, u32)>, x: (u32, u32)) -> (at: usize)
    requires
        increasing_pairs(v@),
    ensures
        at <= v.len(),
        forall|j: int| 0 <= j < at ==> pair_lt(v@[j], x),
        forall|j: int| at <= j < v.len() ==> !pair_lt(v@[j], x),
        v@.contains(x) <==> (at < v.len() && v@[at as int] == x),
{
    let mut lo: usize = 0;
    let mut hi: usize = v.len();
    while lo < hi
        invariant
            lo <= hi <= v.len(),
            increasing_pairs(v@),
            forall|j: int| 0 <= j < lo ==> pair_lt(v@[j], x),
            forall|j: int| hi <= j < v.len() ==> !pair_lt(v@[j], x),
        decreases hi - lo,
    {
        let mid: usize = lo + (hi - lo) / 2;
        if pair_before(v[mid], x) {
            lo = mid + 1;
            assert forall|j: int| 0 <= j < lo implies pair_lt(v@[j], x) by {
                if j < mid {
                    assert(pair_lt(v@[j], v@[mid as int]));
                }
            }
        } else {
            hi = mid;
            assert forall|j: int| hi <= j < v.len() implies !pair_lt(v@[j], x) by {
                if j > mid {
                    assert(pair_lt(v@[mid as int], v@[j]));
                }
            }
        }
    }
    proof {
        if v@.contains(x) {
            let k = choose|k: int| 0 <= k < v.len() && v@[k] == x;
            assert(k >= lo);
            if k > lo {
                assert(pair_lt(v@[lo as int], v@[k]));
            }
        }
    }
    lo
}

/// Puts `x` into `v` unless it is there; says whether it was put in.
pub fn insert_sorted(v: &mut Vec<u32>, x: u32) -> (added: bool)
    requires
        increasing(old(v)@),
    ensures
        increasing(final(v)@),
        added == !old(v)@.contains(x),
        final(v)@.to_set() == old(v)@.to_set().insert(x),
        !added ==> final(v)@ == old(v)@,
{
    let at = lower_bound(v, x);
    if at < v.len() && v[at] == x {
        assert(old(v)@.to_set().insert(x) =~= old(v)@.to_set());
        false
    } else {
        v.insert(at, x);
        proof {
            lemma_insert_to_set(old(v)@, at as int, x);
        }
        true
    }
}

/// Takes `x` out of `v` if it is there; says whether it was.
pub fn remove_sorted(v: &mut Vec<u32>, x: u32) -> (removed: bool)
    requires
        increasing(old(v)@),
    ensures
        increasing(final(v)@),
        removed == old(v)@.contains(x),
        final(v)@.to_set() == old(v)@.to_set().remove(x),
        !removed ==> final(v)@ == old(v)@,
{
    let at = lower_bound(v, x);
    if at < v.len() && v[at] == x {
        v.remove(at);
        proof {
            lemma_increasing_no_duplicates(old(v)@);
            lemma_remove_to_set(old(v)@, at as int);
        }
        true
    } else {
        assert(old(v)@.to_set().remove(x) =~= old(v)@.to_set());
        false
    }
}

/// Puts the pair `x` into `v` unless it is there; says whether it was put in.
pub fn insert_sorted_pair(v: &mut Vec<(u32, u32)>, x: (u32, u32)) -> (added: bool)
    requires
        increasing_pairs(old(v)@),
    ensures
        increasing_pairs(final(v)@),
        added == !old(v)@.contains(x),
        final(v)@.to_set() == old(v)@.to_set().insert(x),
        !added ==> final(v)@ == old(v)@,
{
    let at = lower_bound_pairs(v, x);
    if at < v.len() && v[at].0 == x.0 && v[at].1 == x.1 {
        assert(old(v)@.to_set().insert(x) =~= old(v)@.to_set());
        false
    } else {
        v.insert(at, x);
        proof {
            lemma_insert_to_set(old(v)@, at as int, x);
            assert forall|i: int, j: int| 0 <= i < j < v@.len() implies pair_lt(
                v@[i],
                v@[j],
            ) by {
                if j == at {
                    assert(pair_lt(old(v)@[i], x));
                } else if i == at {
                    assert(!pair_lt(old(v)@[j - 1], x));
                    assert(old(v)@[j - 1] != x) by {
                        if j - 1 > at {
                            assert(pair_lt(old(v)@[at as int], old(v)@[j - 1]));
                        }
                    }
                } else if i < at && j > at {
                    assert(pair_lt(old(v)@[i], old(v)@[j - 1]));
                } else if j < at {
                    assert(pair_lt(old(v)@[i], old(v)@[j]));
                } else {
                    assert(pair_lt(old(v)@[i - 1], old(v)@[j - 1]));
                }
            }
        }
        true
    }
}

/// Takes the pair `x` out of `v` if it is there; says whether it was.
pub fn remove_sorted_pair(v: &mut Vec<(u32, u32)>, x: (u32, u32)) -> (removed: bool)
    requires
        increasing_pairs(old(v)@),
    ensures
        increasing_pairs(final(v)@),
        removed == old(v)@.contains(x),
        final(v)@.to_set() == old(v)@.to_set().remove(x),
        !removed ==> final(v)@ == old(v)@,
{
    let at = lower_bound_pairs(v, x);
    if at < v.len() && v[at].0 == x.0 && v[at].1 == x.1 {
        v.remove(at);
        proof {
            lemma_increasing_pairs_no_duplicates(old(v)@);
            lemma_remove_to_set(old(v)@, at as int);
            assert forall|i: int, j: int| 0 <= i < j < v@.len() implies pair_lt(
                v@[i],
                v@[j],
            ) by {
                let oi = if i < at { i } else { i + 1 };
                let oj = if j < at { j } else { j + 1 };
                assert(pair_lt(old(v)@[oi], old(v)@[oj]));
            }
        }
        true
    } else {
        assert(old(v)@.to_set().remove(x) =~= old(v)@.to_set());
        false
    }
}

} // verus!
