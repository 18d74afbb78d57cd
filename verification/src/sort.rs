//! Sorting by path: a merge sort that keeps equal paths in the order in
//! which they came.

use crate::path::{lemma_path_trichotomy, path_le, path_less};
use vstd::multiset::group_multiset_axioms;
use vstd::prelude::*;
use vstd::seq_lib::group_to_multiset_ensures;

verus! {

/// A value that is ordered and found by a path.
pub trait Keyed {
    /// The path by which the value is ordered.
    spec fn key(&self) -> Seq<u8>;

    /// Hands out the path by which the value is ordered.
    fn key_bytes(&self) -> (k: &[u8])
        ensures
            k@ == self.key(),
    ;
}

impl Keyed for Vec<u8> {
    open spec fn key(&self) -> Seq<u8> {
        self@
    }

    fn key_bytes(&self) -> (k: &[u8]) {
        self.as_slice()
    }
}

/// The paths of a list of values, in the list's order.
pub open spec fn keys_of<T: Keyed>(s: Seq<T>) -> Seq<Seq<u8>> {
    s.map_values(|x: T| x.key())
}

/// No value of the list stands before one with a smaller path.
pub open spec fn sorted_by_key<T: Keyed>(s: Seq<T>) -> bool {
    forall|i: int, j: int| 0 <= i < j < s.len() ==> path_le(#[trigger] s[i].key(), #[trigger] s[j].key())
}

/// The test for the path `k`.
pub open spec fn has_key<T: Keyed>(k: Seq<u8>) -> spec_fn(T) -> bool {
    |x: T| x.key() == k
}

/// The values of the list that have the path `k`, in the list's order.
pub open spec fn with_key<T: Keyed>(s: Seq<T>, k: Seq<u8>) -> Seq<T> {
    s.filter(has_key(k))
}

/// `out` is `inp` sorted by path, and values with the same path stand in
/// `out` in the order in which they stand in `inp`.
pub open spec fn is_stable_sort<T: Keyed>(out: Seq<T>, inp: Seq<T>) -> bool {
    &&& sorted_by_key(out)
    &&& forall|k: Seq<u8>| #[trigger] with_key(out, k) == with_key(inp, k)
}

/// What the merging of `a` and `b` has reached when `i` values of `a` and
/// `j` values of `b` are in `out`.
spec fn merged<T: Keyed>(a: Seq<T>, b: Seq<T>, out: Seq<T>, i: int, j: int) -> bool {
    &&& sorted_by_key(a)
    &&& sorted_by_key(b)
    &&& 0 <= i <= a.len()
    &&& 0 <= j <= b.len()
    &&& sorted_by_key(out)
    &&& i < a.len() ==> forall|p: int|
        0 <= p < out.len() ==> path_le(#[trigger] out[p].key(), a[i].key())
    &&& j < b.len() ==> forall|p: int|
        0 <= p < out.len() ==> path_le(#[trigger] out[p].key(), b[j].key())
    &&& out.to_multiset() == a.take(i).to_multiset().add(b.take(j).to_multiset())
    &&& forall|k: Seq<u8>| #[trigger]
        with_key(out, k) == with_key(a.take(i), k) + with_key(b.take(j), k)
    &&& i < a.len() ==> forall|t: int|
        0 <= t < j ==> crate::path::path_lt(#[trigger] b[t].key(), a[i].key())
}

/// What a pushed value does to the values with the path `k`.
pub proof fn lemma_with_key_push<T: Keyed>(s: Seq<T>, x: T, k: Seq<u8>)
    ensures
        with_key(s.push(x), k) == if x.key() == k {
            with_key(s, k).push(x)
        } else {
            with_key(s, k)
        },
{
    s.lemma_filter_push(x, has_key(k));
}

/// A list without a value of the path `k` has no values with the path `k`.
proof fn lemma_with_key_none<T: Keyed>(s: Seq<T>, k: Seq<u8>)
    requires
        forall|t: int| 0 <= t < s.len() ==> (#[trigger] s[t]).key() != k,
    ensures
        with_key(s, k) == Seq::<T>::empty(),
    decreases s.len(),
{
    reveal(Seq::filter);
    if s.len() > 0 {
        assert forall|t: int| 0 <= t < s.drop_last().len() implies (#[trigger] s.drop_last()[t]).key()
            != k by {
            assert(s.drop_last()[t] == s[t]);
        }
        lemma_with_key_none(s.drop_last(), k);
        assert(s[s.len() - 1].key() != k);
    }
}

/// The merging goes on with the next value of `a` where the next value of
/// `b` is not smaller.
proof fn lemma_take_left<T: Keyed>(a: Seq<T>, b: Seq<T>, out: Seq<T>, i: int, j: int)
    requires
        merged(a, b, out, i, j),
        i < a.len(),
        j < b.len() ==> !crate::path::path_lt(b[j].key(), a[i].key()),
    ensures
        merged(a, b, out.push(a[i]), i + 1, j),
{
    broadcast use group_to_multiset_ensures, group_multiset_axioms;

    let x = a[i];
    let grown = out.push(x);
    assert(a.take(i + 1) =~= a.take(i).push(x));
    vstd::seq_lib::to_multiset_build(out, x);
    vstd::seq_lib::to_multiset_build(a.take(i), x);
    assert(grown.to_multiset() =~= a.take(i + 1).to_multiset().add(b.take(j).to_multiset()));
    assert forall|p: int, q: int| 0 <= p < q < grown.len() implies path_le(
        #[trigger] grown[p].key(),
        #[trigger] grown[q].key(),
    ) by {
        assert(grown[p] == out[p]);
        if q < out.len() {
            assert(grown[q] == out[q]);
        }
    }
    if i + 1 < a.len() {
        assert(path_le(a[i].key(), a[i + 1].key()));
        assert forall|p: int| 0 <= p < grown.len() implies path_le(
            #[trigger] grown[p].key(),
            a[i + 1].key(),
        ) by {
            if p < out.len() {
                assert(grown[p] == out[p]);
                crate::path::lemma_path_le_transitive(out[p].key(), a[i].key(), a[i + 1].key());
            }
        }
        assert forall|t: int| 0 <= t < j implies crate::path::path_lt(
            #[trigger] b[t].key(),
            a[i + 1].key(),
        ) by {
            crate::path::lemma_path_le_transitive(b[t].key(), a[i].key(), a[i + 1].key());
        }
    }
    if j < b.len() {
        lemma_path_trichotomy(a[i].key(), b[j].key());
        assert forall|p: int| 0 <= p < grown.len() implies path_le(
            #[trigger] grown[p].key(),
            b[j].key(),
        ) by {
            if p < out.len() {
                assert(grown[p] == out[p]);
            }
        }
    }
    assert forall|k: Seq<u8>| #[trigger]
        with_key(grown, k) == with_key(a.take(i + 1), k) + with_key(b.take(j), k) by {
        lemma_with_key_push(out, x, k);
        lemma_with_key_push(a.take(i), x, k);
        let from_a = with_key(a.take(i), k);
        let from_b = with_key(b.take(j), k);
        assert(with_key(out, k) == from_a + from_b);
        if x.key() == k {
            assert forall|t: int| 0 <= t < b.take(j).len() implies (#[trigger] b.take(j)[t]).key()
                != k by {
                assert(crate::path::path_lt(b[t].key(), a[i].key()));
                lemma_path_trichotomy(k, k);
            }
            lemma_with_key_none(b.take(j), k);
            assert((from_a + from_b).push(x) =~= from_a.push(x) + from_b);
        }
    }
}

/// The merging goes on with the next value of `b` where it is smaller than
/// the next value of `a`, or where `a` is used up.
proof fn lemma_take_right<T: Keyed>(a: Seq<T>, b: Seq<T>, out: Seq<T>, i: int, j: int)
    requires
        merged(a, b, out, i, j),
        j < b.len(),
        i < a.len() ==> crate::path::path_lt(b[j].key(), a[i].key()),
    ensures
        merged(a, b, out.push(b[j]), i, j + 1),
{
    broadcast use group_to_multiset_ensures, group_multiset_axioms;

    let y = b[j];
    let grown = out.push(y);
    assert(b.take(j + 1) =~= b.take(j).push(y));
    vstd::seq_lib::to_multiset_build(out, y);
    vstd::seq_lib::to_multiset_build(b.take(j), y);
    assert(grown.to_multiset() =~= a.take(i).to_multiset().add(b.take(j + 1).to_multiset()));
    assert forall|p: int, q: int| 0 <= p < q < grown.len() implies path_le(
        #[trigger] grown[p].key(),
        #[trigger] grown[q].key(),
    ) by {
        assert(grown[p] == out[p]);
        if q < out.len() {
            assert(grown[q] == out[q]);
        }
    }
    if j + 1 < b.len() {
        assert(path_le(b[j].key(), b[j + 1].key()));
        assert forall|p: int| 0 <= p < grown.len() implies path_le(
            #[trigger] grown[p].key(),
            b[j + 1].key(),
        ) by {
            if p < out.len() {
                assert(grown[p] == out[p]);
                crate::path::lemma_path_le_transitive(out[p].key(), b[j].key(), b[j + 1].key());
            }
        }
    }
    if i < a.len() {
        assert forall|p: int| 0 <= p < grown.len() implies path_le(
            #[trigger] grown[p].key(),
            a[i].key(),
        ) by {
            if p < out.len() {
                assert(grown[p] == out[p]);
            }
        }
    }
    assert forall|k: Seq<u8>| #[trigger]
        with_key(grown, k) == with_key(a.take(i), k) + with_key(b.take(j + 1), k) by {
        lemma_with_key_push(out, y, k);
        lemma_with_key_push(b.take(j), y, k);
        let from_a = with_key(a.take(i), k);
        let from_b = with_key(b.take(j), k);
        assert(with_key(out, k) == from_a + from_b);
        if y.key() == k {
            assert((from_a + from_b).push(y) =~= from_a + from_b.push(y));
        }
    }
}

/// Two lists with the same members, each as often, keep the same members
/// when one function is applied to all of them.
pub proof fn lemma_map_values_multiset<A, B>(a: Seq<A>, b: Seq<A>, f: spec_fn(A) -> B)
    requires
        a.to_multiset() == b.to_multiset(),
    ensures
        a.map_values(f).to_multiset() == b.map_values(f).to_multiset(),
    decreases a.len(),
{
    broadcast use group_to_multiset_ensures;

    vstd::seq_lib::to_multiset_len(a);
    vstd::seq_lib::to_multiset_len(b);
    if a.len() == 0 {
        assert(a.map_values(f) =~= b.map_values(f));
    } else {
        let x = a.last();
        assert(a.contains(x)) by {
            assert(a[a.len() - 1] == x);
        }
        assert(b.to_multiset().count(x) > 0);
        assert(b.contains(x));
        let j = choose|j: int| 0 <= j < b.len() && b[j] == x;
        let a1 = a.drop_last();
        let b1 = b.remove(j);
        assert(a =~= a1.push(x));
        assert(a1.to_multiset() =~= a.to_multiset().remove(x));
        assert(b1.to_multiset() =~= b.to_multiset().remove(x));
        lemma_map_values_multiset(a1, b1, f);
        assert(a.map_values(f) =~= a1.map_values(f).push(f(x)));
        assert(b.map_values(f) =~= b1.map_values(f).insert(j, f(x)));
    }
}

/// Turns a list round.
fn reversed<T>(v: Vec<T>) -> (out: Vec<T>)
    ensures
        out@ == v@.reverse(),
{
    let ghost orig = v@;
    let mut v = v;
    let mut out: Vec<T> = Vec::new();
    while v.len() > 0
        invariant
            v@ == orig.take(v.len() as int),
            v.len() <= orig.len(),
            out.len() + v.len() == orig.len(),
            forall|i: int| 0 <= i < out.len() ==> out@[i] == orig[orig.len() - 1 - i],
        decreases v.len(),
    {
        let x = v.pop().unwrap();
        out.push(x);
    }
    assert(out@ =~= orig.reverse());
    out
}

/// Merges two sorted lists into one; of two values with the same path the
/// one from `a` comes first.
fn merge<T: Keyed>(a: Vec<T>, b: Vec<T>) -> (out: Vec<T>)
    requires
        sorted_by_key(a@),
        sorted_by_key(b@),
    ensures
        sorted_by_key(out@),
        out@.to_multiset() == a@.to_multiset().add(b@.to_multiset()),
        forall|k: Seq<u8>| #[trigger] with_key(out@, k) == with_key(a@, k) + with_key(b@, k),
{
    broadcast use group_to_multiset_ensures, group_multiset_axioms;

    let ghost left = a@;
    let ghost right = b@;
    let mut ra = reversed(a);
    let mut rb = reversed(b);
    let mut out: Vec<T> = Vec::new();
    proof {
        reveal(Seq::filter);
        assert(left.take(0) =~= Seq::<T>::empty());
        assert(right.take(0) =~= Seq::<T>::empty());
        assert(out@ =~= Seq::<T>::empty());
        assert(out@.to_multiset() =~= left.take(0).to_multiset().add(right.take(0).to_multiset()));
        assert forall|k: Seq<u8>| #[trigger]
            with_key(out@, k) == with_key(left.take(0), k) + with_key(right.take(0), k) by {
            assert(with_key(out@, k) =~= with_key(left.take(0), k) + with_key(right.take(0), k));
        }
    }
    while ra.len() > 0 || rb.len() > 0
        invariant
            ra.len() <= left.len(),
            rb.len() <= right.len(),
            forall|t: int| 0 <= t < ra.len() ==> ra@[t] == left[left.len() - 1 - t],
            forall|t: int| 0 <= t < rb.len() ==> rb@[t] == right[right.len() - 1 - t],
            merged(left, right, out@, left.len() - ra.len(), right.len() - rb.len()),
        decreases ra.len() + rb.len(),
    {
        let ghost i = left.len() - ra.len();
        let ghost j = right.len() - rb.len();
        let from_a = if ra.len() == 0 {
            false
        } else if rb.len() == 0 {
            true
        } else {
            !path_less(rb[rb.len() - 1].key_bytes(), ra[ra.len() - 1].key_bytes())
        };
        if from_a {
            proof {
                lemma_take_left(left, right, out@, i, j);
            }
            let x = ra.pop().unwrap();
            out.push(x);
        } else {
            proof {
                lemma_take_right(left, right, out@, i, j);
            }
            let y = rb.pop().unwrap();
            out.push(y);
        }
    }
    proof {
        assert(left.take(left.len() as int) =~= left);
        assert(right.take(right.len() as int) =~= right);
    }
    out
}

/// Sorts a list by path, in byte-lexicographic order. The result holds the
/// values of `v`, each as often as `v` does, and values with the same path
/// keep their order.
pub fn sort_by_key<T: Keyed>(v: Vec<T>) -> (out: Vec<T>)
    ensures
        is_stable_sort(out@, v@),
        out@.to_multiset() == v@.to_multiset(),
        out.len() == v.len(),
    decreases v.len(),
{
    broadcast use group_to_multiset_ensures, group_multiset_axioms;

    if v.len() <= 1 {
        return v;
    }
    let ghost orig = v@;
    let mut left = v;
    let mid = left.len() / 2;
    let right = left.split_off(mid);
    let ghost first = left@;
    let ghost second = right@;
    proof {
        assert(orig =~= first + second);
        vstd::seq_lib::lemma_multiset_commutative(first, second);
    }
    let left = sort_by_key(left);
    let right = sort_by_key(right);
    let out = merge(left, right);
    proof {
        vstd::seq_lib::to_multiset_len(out@);
        vstd::seq_lib::to_multiset_len(orig);
        assert forall|k: Seq<u8>| #[trigger] with_key(out@, k) == with_key(orig, k) by {
            Seq::filter_distributes_over_add(first, second, has_key(k));
            assert(with_key(left@, k) == with_key(first, k));
            assert(with_key(right@, k) == with_key(second, k));
        }
    }
    out
}

/// Tells whether a sorted list holds a value with the path `key`.
pub fn holds_key<T: Keyed>(v: &Vec<T>, key: &[u8]) -> (found: bool)
    requires
        sorted_by_key(v@),
    ensures
        found == exists|i: int| 0 <= i < v.len() && (#[trigger] v@[i]).key() == key@,
{
    let mut lo: usize = 0;
    let mut hi: usize = v.len();
    while lo < hi
        invariant
            lo <= hi <= v.len(),
            sorted_by_key(v@),
            forall|i: int| 0 <= i < lo ==> crate::path::path_lt((#[trigger] v@[i]).key(), key@),
            forall|i: int|
                hi <= i < v.len() ==> crate::path::path_lt(key@, (#[trigger] v@[i]).key()),
        decreases hi - lo,
    {
        let mid = lo + (hi - lo) / 2;
        let ghost at_mid = v@[mid as int].key();
        if path_less(v[mid].key_bytes(), key) {
            proof {
                assert forall|i: int| 0 <= i < mid + 1 implies crate::path::path_lt(
                    (#[trigger] v@[i]).key(),
                    key@,
                ) by {
                    if i < mid {
                        assert(path_le(v@[i].key(), at_mid));
                        crate::path::lemma_path_le_transitive(v@[i].key(), at_mid, key@);
                    }
                }
            }
            lo = mid + 1;
        } else if path_less(key, v[mid].key_bytes()) {
            proof {
                assert forall|i: int| mid <= i < v.len() implies crate::path::path_lt(
                    key@,
                    (#[trigger] v@[i]).key(),
                ) by {
                    if i > mid {
                        assert(path_le(at_mid, v@[i].key()));
                        crate::path::lemma_path_le_transitive(key@, at_mid, v@[i].key());
                    }
                }
            }
            hi = mid;
        } else {
            proof {
                lemma_path_trichotomy(at_mid, key@);
            }
            return true;
        }
    }
    proof {
        assert forall|i: int| 0 <= i < v.len() implies (#[trigger] v@[i]).key() != key@ by {
            lemma_path_trichotomy(key@, key@);
        }
    }
    false
}

} // verus!
