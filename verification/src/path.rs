//! Paths as byte strings: their order, and the directories above them.

use vstd::prelude::*;

verus! {

/// The byte that separates the components of a path.
pub const SEPARATOR: u8 = 47;

/// The first position at or after `i` where `a` and `b` stop agreeing:
/// either one of them ends there, or they hold different bytes.
pub open spec fn mismatch(a: Seq<u8>, b: Seq<u8>, i: int) -> int
    decreases a.len() - i,
{
    if 0 <= i < a.len() && i < b.len() && a[i] == b[i] {
        mismatch(a, b, i + 1)
    } else {
        i
    }
}

/// `a` comes strictly before `b` in byte-lexicographic order.
pub open spec fn path_lt(a: Seq<u8>, b: Seq<u8>) -> bool {
    let k = mismatch(a, b, 0);
    k < b.len() && (k == a.len() || a[k] < b[k])
}

/// `a` comes before `b` in byte-lexicographic order, or equals it.
pub open spec fn path_le(a: Seq<u8>, b: Seq<u8>) -> bool {
    a == b || path_lt(a, b)
}

/// What `mismatch` finds: the two paths agree before it, and not at it.
pub proof fn lemma_mismatch(a: Seq<u8>, b: Seq<u8>, i: int)
    requires
        0 <= i <= a.len(),
        i <= b.len(),
        forall|j: int| 0 <= j < i ==> a[j] == b[j],
    ensures
        i <= mismatch(a, b, i) <= a.len(),
        mismatch(a, b, i) <= b.len(),
        forall|j: int| 0 <= j < mismatch(a, b, i) ==> a[j] == b[j],
        mismatch(a, b, i) < a.len() && mismatch(a, b, i) < b.len() ==> a[mismatch(a, b, i)]
            != b[mismatch(a, b, i)],
        mismatch(a, b, i) == mismatch(a, b, 0),
    decreases a.len() - i,
{
    if i < a.len() && i < b.len() && a[i] == b[i] {
        lemma_mismatch(a, b, i + 1);
    }
    lemma_mismatch_from_start(a, b, i);
}

proof fn lemma_mismatch_from_start(a: Seq<u8>, b: Seq<u8>, i: int)
    requires
        0 <= i <= a.len(),
        i <= b.len(),
        forall|j: int| 0 <= j < i ==> a[j] == b[j],
    ensures
        mismatch(a, b, i) == mismatch(a, b, 0),
    decreases i,
{
    if i > 0 {
        lemma_mismatch_from_start(a, b, i - 1);
    }
}

/// A position at which two paths differ, with agreement before it, is the
/// one that `mismatch` finds.
pub proof fn lemma_mismatch_is(a: Seq<u8>, b: Seq<u8>, k: int)
    requires
        0 <= k <= a.len(),
        k <= b.len(),
        forall|j: int| 0 <= j < k ==> a[j] == b[j],
        k < a.len() && k < b.len() ==> a[k] != b[k],
    ensures
        mismatch(a, b, 0) == k,
{
    lemma_mismatch(a, b, k);
}

/// Two paths of which neither comes before the other are the same path.
pub proof fn lemma_path_trichotomy(a: Seq<u8>, b: Seq<u8>)
    ensures
        path_lt(a, b) || path_lt(b, a) || a == b,
        !(path_lt(a, b) && path_lt(b, a)),
        !path_lt(a, a),
{
    lemma_mismatch(a, b, 0);
    lemma_mismatch(b, a, 0);
    lemma_mismatch(a, a, 0);
    let k = mismatch(a, b, 0);
    lemma_mismatch_is(b, a, k);
    if k == a.len() && k == b.len() {
        assert(a =~= b);
    }
}

/// The order on paths is transitive.
pub proof fn lemma_path_lt_transitive(a: Seq<u8>, b: Seq<u8>, c: Seq<u8>)
    requires
        path_lt(a, b),
        path_lt(b, c),
    ensures
        path_lt(a, c),
{
    lemma_mismatch(a, b, 0);
    lemma_mismatch(b, c, 0);
    let k1 = mismatch(a, b, 0);
    let k2 = mismatch(b, c, 0);
    let k = if k1 <= k2 { k1 } else { k2 };
    lemma_mismatch_is(a, c, k);
}

/// The order on paths is transitive, equality included.
pub proof fn lemma_path_le_transitive(a: Seq<u8>, b: Seq<u8>, c: Seq<u8>)
    requires
        path_le(a, b),
        path_le(b, c),
    ensures
        path_le(a, c),
        path_lt(a, b) || path_lt(b, c) ==> path_lt(a, c),
{
    if a != b && b != c {
        lemma_path_lt_transitive(a, b, c);
    }
}

/// Tells whether `a` comes strictly before `b` in byte-lexicographic order.
pub fn path_less(a: &[u8], b: &[u8]) -> (less: bool)
    ensures
        less == path_lt(a@, b@),
{
    let mut i: usize = 0;
    while i < a.len() && i < b.len() && a[i] == b[i]
        invariant
            i <= a.len(),
            i <= b.len(),
            forall|j: int| 0 <= j < i ==> a@[j] == b@[j],
        decreases a.len() - i,
    {
        i += 1;
    }
    proof {
        lemma_mismatch_is(a@, b@, i as int);
    }
    i < b.len() && (i == a.len() || a[i] < b[i])
}

/// `k` is a place where `p` can be cut into a directory and what lies under
/// it: a separator stands at `k`, and the byte before it is none.
pub open spec fn is_cut(p: Seq<u8>, k: int) -> bool {
    0 < k < p.len() && p[k] == SEPARATOR && p[k - 1] != SEPARATOR
}

/// The path of the root directory.
pub open spec fn root_path() -> Seq<u8> {
    seq![SEPARATOR]
}

/// `p` lies under the root: it begins with a separator and goes on.
pub open spec fn below_root(p: Seq<u8>) -> bool {
    p.len() > 1 && p[0] == SEPARATOR
}

/// The first `n` bytes of `p` name a directory above `p`: `n` is a cut of
/// `p`, or the first byte is the root and `p` lies under it.
pub open spec fn is_dir_len(p: Seq<u8>, n: int) -> bool {
    is_cut(p, n) || (n == 1 && below_root(p))
}

/// `a` is a directory above `p`: what `p` holds before one of its cuts,
/// or the root where `p` lies under it.
pub open spec fn is_ancestor(a: Seq<u8>, p: Seq<u8>) -> bool {
    is_dir_len(p, a.len() as int) && a == p.take(a.len() as int)
}

/// `a` is `q` itself or a directory above `q`.
pub open spec fn covers(a: Seq<u8>, q: Seq<u8>) -> bool {
    a == q || is_ancestor(a, q)
}

/// The directories above `p` of at most `k` bytes that do not cover `q`,
/// the longest first.
pub open spec fn uncovered_below(p: Seq<u8>, q: Seq<u8>, k: int) -> Seq<Seq<u8>>
    decreases k,
{
    if k <= 0 {
        Seq::empty()
    } else if is_dir_len(p, k) && !covers(p.take(k), q) {
        seq![p.take(k)] + uncovered_below(p, q, k - 1)
    } else {
        uncovered_below(p, q, k - 1)
    }
}

/// The directories above `p` that do not cover `q`, the longest first.
pub open spec fn uncovered(p: Seq<u8>, q: Seq<u8>) -> Seq<Seq<u8>> {
    uncovered_below(p, q, p.len() - 1)
}

/// A directory above a directory above `c` is above `c`.
pub proof fn lemma_ancestor_transitive(a: Seq<u8>, b: Seq<u8>, c: Seq<u8>)
    requires
        is_ancestor(a, b),
        is_ancestor(b, c),
    ensures
        is_ancestor(a, c),
{
    assert(a =~= c.take(a.len() as int));
}

/// Of two directories above one path, the shorter covers the longer.
pub proof fn lemma_ancestors_nest(a: Seq<u8>, b: Seq<u8>, p: Seq<u8>)
    requires
        is_ancestor(a, p),
        is_ancestor(b, p),
        a.len() <= b.len(),
    ensures
        covers(a, b),
{
    if a.len() == b.len() {
        assert(a =~= b);
    } else {
        assert(a =~= b.take(a.len() as int));
    }
}

/// What covers a path covers every path that the path covers.
pub proof fn lemma_covers_transitive(a: Seq<u8>, b: Seq<u8>, c: Seq<u8>)
    requires
        covers(a, b),
        covers(b, c),
    ensures
        covers(a, c),
{
    if a != b && b != c {
        lemma_ancestor_transitive(a, b, c);
    }
}

/// Below a directory that covers `q`, every directory above `p` covers `q`.
pub proof fn lemma_covered_below(p: Seq<u8>, q: Seq<u8>, k: int, j: int)
    requires
        is_dir_len(p, k),
        covers(p.take(k), q),
        j <= k,
    ensures
        uncovered_below(p, q, j) == Seq::<Seq<u8>>::empty(),
    decreases j,
{
    if j > 0 {
        lemma_covered_below(p, q, k, j - 1);
        if is_dir_len(p, j) {
            lemma_ancestors_nest(p.take(j), p.take(k), p);
            lemma_covers_transitive(p.take(j), p.take(k), q);
        }
    }
}

/// Every member of `uncovered_below` is a directory above `p` that does not
/// cover `q`, and every such directory of at most `k` bytes is a member.
pub proof fn lemma_uncovered_below_members(p: Seq<u8>, q: Seq<u8>, k: int)
    requires
        k < p.len(),
    ensures
        forall|a: Seq<u8>| #[trigger]
            uncovered_below(p, q, k).contains(a) <==> is_ancestor(a, p) && a.len() <= k
                && !covers(a, q),
    decreases k,
{
    if k > 0 {
        lemma_uncovered_below_members(p, q, k - 1);
        let rest = uncovered_below(p, q, k - 1);
        let all = uncovered_below(p, q, k);
        assert forall|a: Seq<u8>| #[trigger]
            all.contains(a) <==> is_ancestor(a, p) && a.len() <= k && !covers(a, q) by {
            if is_dir_len(p, k) && !covers(p.take(k), q) {
                let head = seq![p.take(k)];
                assert(all == head + rest);
                if all.contains(a) {
                    let i = choose|i: int| 0 <= i < all.len() && all[i] == a;
                    if i > 0 {
                        assert(rest[i - 1] == a);
                        assert(rest.contains(a));
                    }
                }
                if is_ancestor(a, p) && a.len() <= k && !covers(a, q) {
                    if a.len() == k {
                        assert(all[0] == a);
                    } else {
                        assert(rest.contains(a));
                        let i = choose|i: int| 0 <= i < rest.len() && rest[i] == a;
                        assert(all[i + 1] == a);
                    }
                }
            } else {
                if is_ancestor(a, p) && a.len() == k {
                    assert(a == p.take(k));
                }
            }
        }
    }
}

/// Tells whether the first `k` bytes of `p` name a directory above `p`.
pub fn dir_at(p: &[u8], k: usize) -> (dir: bool)
    ensures
        dir == is_dir_len(p@, k as int),
{
    if k == 0 || k >= p.len() {
        return false;
    }
    (p[k] == SEPARATOR && p[k - 1] != SEPARATOR) || (k == 1 && p[0] == SEPARATOR)
}

/// Tells whether the directory that the first `k` bytes of `p` name is `q`
/// itself or a directory above `q`.
pub fn covers_at(p: &[u8], k: usize, q: &[u8]) -> (c: bool)
    requires
        is_dir_len(p@, k as int),
    ensures
        c == covers(p@.take(k as int), q@),
{
    let ghost a = p@.take(k as int);
    if q.len() < k {
        return false;
    }
    let mut i: usize = 0;
    while i < k
        invariant
            i <= k,
            k < p.len(),
            k <= q.len(),
            a == p@.take(k as int),
            forall|j: int| 0 <= j < i ==> p@[j] == q@[j],
        decreases k - i,
    {
        if p[i] != q[i] {
            assert(a[i as int] != q@[i as int]);
            assert(q@.take(k as int)[i as int] == q@[i as int]);
            return false;
        }
        i += 1;
    }
    if q.len() == k {
        assert(a =~= q@);
        true
    } else {
        assert(a =~= q@.take(k as int));
        (k == 1 && p[0] == SEPARATOR) || q[k] == SEPARATOR
    }
}

} // verus!
