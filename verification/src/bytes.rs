//! Byte strings cut into pieces at a separator.

use vstd::prelude::*;

verus! {

/// The tabulator.
pub const TAB: u8 = 9;

/// The line feed.
pub const NEWLINE: u8 = 10;

/// The space.
pub const SPACE: u8 = 32;

/// Where the pieces of `s` lie that a separator cuts it into: for each
/// piece the position of its first byte and the position behind its last
/// byte. A byte string with `n` separators has `n + 1` pieces; a piece may
/// be empty.
pub open spec fn ranges_of(s: Seq<u8>, sep: u8) -> Seq<(int, int)>
    decreases s.len(),
{
    if s.len() == 0 {
        seq![(0int, 0int)]
    } else {
        let before = ranges_of(s.drop_last(), sep);
        if s.last() == sep {
            before.push((s.len() as int, s.len() as int))
        } else {
            before.update(before.len() - 1, (before.last().0, s.len() as int))
        }
    }
}

/// The pieces of `s` that a separator cuts it into.
pub open spec fn pieces_of(s: Seq<u8>, sep: u8) -> Seq<Seq<u8>> {
    ranges_of(s, sep).map_values(|r: (int, int)| s.subrange(r.0, r.1))
}

/// The ranges as pairs of mathematical integers.
pub open spec fn ranges_view(ranges: Seq<(usize, usize)>) -> Seq<(int, int)> {
    ranges.map_values(|r: (usize, usize)| (r.0 as int, r.1 as int))
}

/// Cuts a byte string at each separator and tells where the pieces lie.
pub fn split_ranges(s: &[u8], sep: u8) -> (ranges: Vec<(usize, usize)>)
    ensures
        ranges_view(ranges@) == ranges_of(s@, sep),
        ranges.len() >= 1,
        forall|k: int| 0 <= k < ranges.len() ==> (#[trigger] ranges@[k]).0 <= ranges@[k].1 <= s.len(),
{
    let mut ranges: Vec<(usize, usize)> = Vec::new();
    let mut start: usize = 0;
    let mut i: usize = 0;
    assert(s@.take(0) =~= Seq::<u8>::empty());
    assert(ranges_view(ranges@).push((0int, 0int)) =~= ranges_of(s@.take(0), sep));
    while i < s.len()
        invariant
            start <= i <= s.len(),
            ranges_of(s@.take(i as int), sep) == ranges_view(ranges@).push((start as int, i as int)),
            forall|k: int| 0 <= k < ranges.len() ==> (#[trigger] ranges@[k]).0 <= ranges@[k].1 <= i,
        decreases s.len() - i,
    {
        let ghost before = ranges_of(s@.take(i as int), sep);
        proof {
            assert(s@.take(i + 1).drop_last() =~= s@.take(i as int));
            assert(s@.take(i + 1).last() == s@[i as int]);
        }
        if s[i] == sep {
            proof {
                assert(ranges_view(ranges@.push((start, i))) =~= ranges_view(ranges@).push(
                    (start as int, i as int),
                ));
            }
            ranges.push((start, i));
            start = i + 1;
        } else {
            proof {
                assert(before.update(before.len() - 1, (before.last().0, i + 1)) =~= ranges_view(
                    ranges@,
                ).push((start as int, i + 1)));
            }
        }
        i += 1;
    }
    proof {
        assert(s@.take(i as int) =~= s@);
        assert(ranges_view(ranges@.push((start, i))) =~= ranges_view(ranges@).push(
            (start as int, i as int),
        ));
    }
    ranges.push((start, i));
    ranges
}

/// Hands out the piece that lies at a range.
pub fn piece<'a>(s: &'a [u8], range: (usize, usize)) -> (p: &'a [u8])
    requires
        range.0 <= range.1 <= s.len(),
    ensures
        p@ == s@.subrange(range.0 as int, range.1 as int),
{
    vstd::slice::slice_subrange(s, range.0, range.1)
}

/// Appends a byte string to another.
pub fn append_bytes(to: &mut Vec<u8>, more: &[u8])
    ensures
        final(to)@ == old(to)@ + more@,
{
    let mut i: usize = 0;
    assert(old(to)@ + more@.take(0) =~= old(to)@);
    while i < more.len()
        invariant
            i <= more.len(),
            to@ == old(to)@ + more@.take(i as int),
        decreases more.len() - i,
    {
        assert(old(to)@ + more@.take(i + 1) =~= (old(to)@ + more@.take(i as int)).push(
            more@[i as int],
        ));
        to.push(more[i]);
        i += 1;
    }
    assert(more@.take(i as int) =~= more@);
}

/// Tells whether two byte strings are the same.
pub fn bytes_equal(a: &[u8], b: &[u8]) -> (same: bool)
    ensures
        same == (a@ == b@),
{
    if a.len() != b.len() {
        return false;
    }
    let mut i: usize = 0;
    while i < a.len()
        invariant
            i <= a.len(),
            a.len() == b.len(),
            forall|j: int| 0 <= j < i ==> a@[j] == b@[j],
        decreases a.len() - i,
    {
        if a[i] != b[i] {
            return false;
        }
        i += 1;
    }
    assert(a@ =~= b@);
    true
}

} // verus!
