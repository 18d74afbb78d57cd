//! The checksums of one package as `dpkg-query --control-show <package>
//! md5sums` prints them: for each file a line with the checksum in
//! hexadecimal, two spaces, and the path without its leading slash.

use crate::bytes::{bytes_equal, piece, pieces_of, ranges_of, ranges_view, split_ranges, NEWLINE, SPACE};
use crate::path::{lemma_path_le_transitive, lemma_path_trichotomy, path_le, path_less, path_lt};
use crate::sort::{lemma_with_key_push, sort_by_key, sorted_by_key, with_key, Keyed};
use crate::hex::{pairs_decoded, pairs_readable, try_decode_hex};
use crate::path::SEPARATOR;
use crate::text::is_utf8;
use vstd::prelude::*;
use vstd::utf8::valid_utf8;

verus! {

/// Whether a line can be read: its first field, where it is UTF-8, can be
/// read pair by pair.
pub open spec fn line_readable(line: Seq<u8>) -> bool {
    valid_utf8(pieces_of(line, SPACE)[0]) ==> pairs_readable(pieces_of(line, SPACE)[0], 0)
}

/// The path and the checksum that a line stands for: the third field
/// behind a slash, and the first field decoded. Nothing where the first
/// field is no checksum in hexadecimal, or where there are fewer than
/// three fields.
pub open spec fn line_sum(line: Seq<u8>) -> Option<(Seq<u8>, Seq<u8>)> {
    let fields = pieces_of(line, SPACE);
    if !valid_utf8(fields[0]) {
        None
    } else {
        match pairs_decoded(fields[0], 0) {
            None => None,
            Some(sum) => if fields.len() < 3 {
                None
            } else {
                Some((seq![SEPARATOR] + fields[2], sum))
            },
        }
    }
}

/// The paths and checksums that a list of lines stands for, in order.
pub open spec fn lines_sums(lines: Seq<Seq<u8>>) -> Seq<(Seq<u8>, Seq<u8>)>
    decreases lines.len(),
{
    if lines.len() == 0 {
        Seq::empty()
    } else {
        match line_sum(lines.last()) {
            Some(entry) => lines_sums(lines.drop_last()).push(entry),
            None => lines_sums(lines.drop_last()),
        }
    }
}

/// Whether every line of the output can be read.
pub open spec fn sums_readable(stdout: Seq<u8>) -> bool {
    forall|k: int|
        0 <= k < pieces_of(stdout, NEWLINE).len() ==> line_readable(
            #[trigger] pieces_of(stdout, NEWLINE)[k],
        )
}

/// The paths and checksums that the output stands for, in its order.
pub open spec fn sums_of(stdout: Seq<u8>) -> Seq<(Seq<u8>, Seq<u8>)> {
    lines_sums(pieces_of(stdout, NEWLINE))
}

/// The views of a list of paths with checksums.
pub open spec fn sums_view(sums: Seq<(Vec<u8>, Vec<u8>)>) -> Seq<(Seq<u8>, Seq<u8>)> {
    sums.map_values(|e: (Vec<u8>, Vec<u8>)| (e.0@, e.1@))
}

/// The view of a path with checksum that may be missing.
pub open spec fn entry_view(entry: Option<(Vec<u8>, Vec<u8>)>) -> Option<(Seq<u8>, Seq<u8>)> {
    match entry {
        Some(e) => Some((e.0@, e.1@)),
        None => None,
    }
}

/// The checksum that a list holds for a path: that of the last entry with
/// the path.
pub open spec fn last_sum(sums: Seq<(Seq<u8>, Seq<u8>)>, path: Seq<u8>) -> Option<Seq<u8>>
    decreases sums.len(),
{
    if sums.len() == 0 {
        None
    } else if sums.last().0 == path {
        Some(sums.last().1)
    } else {
        last_sum(sums.drop_last(), path)
    }
}

/// Reads one line as a path with its checksum, where the line can be
/// read; says `None` where it cannot.
pub fn try_parse_line(line: &[u8]) -> (parsed: Option<Option<(Vec<u8>, Vec<u8>)>>)
    ensures
        parsed is Some <==> line_readable(line@),
        parsed is Some ==> entry_view(parsed->0) == line_sum(line@),
{
    let fields = split_ranges(line, SPACE);
    proof {
        assert(pieces_of(line@, SPACE).len() == fields.len());
        assert(ranges_view(fields@)[0] == ranges_of(line@, SPACE)[0]);
    }
    let first = piece(line, fields[0]);
    if !is_utf8(first) {
        return Some(None);
    }
    let sum = match try_decode_hex(first) {
        None => {
            return None;
        },
        Some(Err(_)) => {
            return Some(None);
        },
        Some(Ok(sum)) => sum,
    };
    if fields.len() < 3 {
        return Some(None);
    }
    proof {
        assert(ranges_view(fields@)[2] == ranges_of(line@, SPACE)[2]);
    }
    let name = piece(line, fields[2]);
    let mut path: Vec<u8> = Vec::new();
    path.push(SEPARATOR);
    let mut i: usize = 0;
    while i < name.len()
        invariant
            i <= name.len(),
            path@ == seq![SEPARATOR] + name@.take(i as int),
        decreases name.len() - i,
    {
        assert(seq![SEPARATOR] + name@.take(i + 1) =~= (seq![SEPARATOR] + name@.take(i as int)).push(
            name@[i as int],
        ));
        path.push(name[i]);
        i += 1;
    }
    assert(name@.take(i as int) =~= name@);
    Some(Some((path, sum)))
}

/// Reads one line as a path with its checksum.
pub fn parse_line(line: &[u8]) -> (parsed: Option<(Vec<u8>, Vec<u8>)>)
    requires
        line_readable(line@),
    ensures
        entry_view(parsed) == line_sum(line@),
{
    match try_parse_line(line) {
        Some(parsed) => parsed,
        None => vstd::pervasive::unreached(),
    }
}

/// Reads the checksums of one package: a path with its checksum for each
/// line that holds both. Says `None` where a line cannot be read.
pub fn try_dpkgcsums(stdout: &[u8]) -> (sums: Option<Vec<(Vec<u8>, Vec<u8>)>>)
    ensures
        sums is Some <==> sums_readable(stdout@),
        sums is Some ==> sums_view(sums->0@) == sums_of(stdout@),
{
    let lines = split_ranges(stdout, NEWLINE);
    let ghost all = pieces_of(stdout@, NEWLINE);
    let mut sums: Vec<(Vec<u8>, Vec<u8>)> = Vec::new();
    let mut k: usize = 0;
    assert(all.take(0) =~= Seq::<Seq<u8>>::empty());
    assert(sums_view(sums@) =~= lines_sums(all.take(0)));
    while k < lines.len()
        invariant
            k <= lines.len(),
            all == pieces_of(stdout@, NEWLINE),
            ranges_view(lines@) == ranges_of(stdout@, NEWLINE),
            forall|j: int| 0 <= j < lines.len() ==> (#[trigger] lines@[j]).0 <= lines@[j].1 <= stdout.len(),
            forall|j: int| 0 <= j < k ==> line_readable(#[trigger] all[j]),
            sums_view(sums@) == lines_sums(all.take(k as int)),
        decreases lines.len() - k,
    {
        let line = piece(stdout, lines[k]);
        proof {
            assert(ranges_view(lines@)[k as int] == ranges_of(stdout@, NEWLINE)[k as int]);
            assert(line@ == all[k as int]);
            assert(all.take(k + 1).drop_last() =~= all.take(k as int));
            assert(all.take(k + 1).last() == line@);
        }
        match try_parse_line(line) {
            None => {
                return None;
            },
            Some(None) => {},
            Some(Some(entry)) => {
                assert(sums_view(sums@.push(entry)) =~= sums_view(sums@).push((entry.0@, entry.1@)));
                sums.push(entry);
            },
        }
        k += 1;
    }
    assert(all.take(k as int) =~= all);
    Some(sums)
}

/// Reads the checksums of one package from an output of which every line
/// can be read.
pub fn dpkgcsums(stdout: &[u8]) -> (sums: Vec<(Vec<u8>, Vec<u8>)>)
    requires
        sums_readable(stdout@),
    ensures
        sums_view(sums@) == sums_of(stdout@),
{
    match try_dpkgcsums(stdout) {
        Some(sums) => sums,
        None => vstd::pervasive::unreached(),
    }
}

impl Keyed for (Vec<u8>, Vec<u8>) {
    open spec fn key(&self) -> Seq<u8> {
        self.0@
    }

    fn key_bytes(&self) -> (k: &[u8]) {
        self.0.as_slice()
    }
}

/// The checksum that a list holds for a path is that of the last of its
/// entries with the path.
proof fn lemma_last_sum_by_key(sums: Seq<(Vec<u8>, Vec<u8>)>, path: Seq<u8>)
    ensures
        last_sum(sums_view(sums), path) == if with_key(sums, path).len() == 0 {
            None
        } else {
            Some(with_key(sums, path).last().1@)
        },
    decreases sums.len(),
{
    reveal(Seq::filter);
    if sums.len() > 0 {
        let init = sums.drop_last();
        let last = sums.last();
        assert(sums =~= init.push(last));
        assert(sums_view(sums).drop_last() =~= sums_view(init));
        assert(sums_view(sums).last() == (last.0@, last.1@));
        lemma_last_sum_by_key(init, path);
        lemma_with_key_push(init, last, path);
    }
}

/// The checksum that a list holds for a path is that of the entry at `c`,
/// where that entry has the path and no entry behind it has.
proof fn lemma_last_sum_at(sums: Seq<(Seq<u8>, Seq<u8>)>, path: Seq<u8>, c: int)
    requires
        0 <= c < sums.len(),
        sums[c].0 == path,
        forall|t: int| c < t < sums.len() ==> (#[trigger] sums[t]).0 != path,
    ensures
        last_sum(sums, path) == Some(sums[c].1),
    decreases sums.len(),
{
    if c < sums.len() - 1 {
        let init = sums.drop_last();
        assert(sums[sums.len() - 1].0 != path);
        assert forall|t: int| c < t < init.len() implies (#[trigger] init[t]).0 != path by {
            assert(init[t] == sums[t]);
        }
        lemma_last_sum_at(init, path, c);
    }
}

/// A list without an entry for a path holds no checksum for it.
proof fn lemma_last_sum_none(sums: Seq<(Seq<u8>, Seq<u8>)>, path: Seq<u8>)
    requires
        forall|t: int| 0 <= t < sums.len() ==> (#[trigger] sums[t]).0 != path,
    ensures
        last_sum(sums, path) is None,
    decreases sums.len(),
{
    if sums.len() > 0 {
        let init = sums.drop_last();
        assert(sums[sums.len() - 1].0 != path);
        assert forall|t: int| 0 <= t < init.len() implies (#[trigger] init[t]).0 != path by {
            assert(init[t] == sums[t]);
        }
        lemma_last_sum_none(init, path);
    }
}

/// The checksums of one package, ready to be looked up by path.
pub struct SumIndex {
    entries: Vec<(Vec<u8>, Vec<u8>)>,
}

impl SumIndex {
    #[verifier::type_invariant]
    spec fn ordered(&self) -> bool {
        sorted_by_key(self.entries@)
    }

    /// The paths with their checksums, in the order of the paths; entries
    /// with one path stand in the order in which they were read.
    pub closed spec fn sums(&self) -> Seq<(Seq<u8>, Seq<u8>)> {
        sums_view(self.entries@)
    }

    /// Puts the checksums of one package in the order of their paths. For
    /// each path the index holds the checksum that the list holds for it:
    /// that of the last entry with the path.
    pub fn new(sums: Vec<(Vec<u8>, Vec<u8>)>) -> (index: SumIndex)
        ensures
            forall|path: Seq<u8>| #[trigger]
                last_sum(index.sums(), path) == last_sum(sums_view(sums@), path),
    {
        let entries = sort_by_key(sums);
        proof {
            assert forall|path: Seq<u8>| #[trigger]
                last_sum(sums_view(entries@), path) == last_sum(sums_view(sums@), path) by {
                lemma_last_sum_by_key(entries@, path);
                lemma_last_sum_by_key(sums@, path);
                assert(with_key(entries@, path) == with_key(sums@, path));
            }
        }
        SumIndex { entries }
    }

    /// Looks up the checksum of a path.
    pub fn find(&self, path: &[u8]) -> (sum: Option<&Vec<u8>>)
        ensures
            match sum {
                Some(s) => last_sum(self.sums(), path@) == Some(s@),
                None => last_sum(self.sums(), path@) is None,
            },
    {
        proof {
            use_type_invariant(self);
        }
        let ghost all = sums_view(self.entries@);
        let mut lo: usize = 0;
        let mut hi: usize = self.entries.len();
        while lo < hi
            invariant
                lo <= hi <= self.entries.len(),
                sorted_by_key(self.entries@),
                forall|t: int| 0 <= t < lo ==> path_le((#[trigger] self.entries@[t]).key(), path@),
                forall|t: int|
                    hi <= t < self.entries.len() ==> path_lt(
                        path@,
                        (#[trigger] self.entries@[t]).key(),
                    ),
            decreases hi - lo,
        {
            let mid = lo + (hi - lo) / 2;
            let ghost at_mid = self.entries@[mid as int].key();
            if path_less(path, self.entries[mid].0.as_slice()) {
                proof {
                    assert forall|t: int| mid <= t < self.entries.len() implies path_lt(
                        path@,
                        (#[trigger] self.entries@[t]).key(),
                    ) by {
                        if t > mid {
                            assert(path_le(at_mid, self.entries@[t].key()));
                            lemma_path_le_transitive(path@, at_mid, self.entries@[t].key());
                        }
                    }
                }
                hi = mid;
            } else {
                proof {
                    lemma_path_trichotomy(path@, at_mid);
                    assert forall|t: int| 0 <= t < mid + 1 implies path_le(
                        (#[trigger] self.entries@[t]).key(),
                        path@,
                    ) by {
                        if t < mid {
                            assert(path_le(self.entries@[t].key(), at_mid));
                            lemma_path_le_transitive(self.entries@[t].key(), at_mid, path@);
                        }
                    }
                }
                lo = mid + 1;
            }
        }
        if lo > 0 && bytes_equal(self.entries[lo - 1].0.as_slice(), path) {
            proof {
                assert forall|t: int| lo - 1 < t < all.len() implies (#[trigger] all[t]).0
                    != path@ by {
                    assert(path_lt(path@, self.entries@[t].key()));
                    lemma_path_trichotomy(path@, path@);
                }
                assert(all[lo - 1] == (self.entries@[lo - 1].0@, self.entries@[lo - 1].1@));
                lemma_last_sum_at(all, path@, lo - 1);
            }
            Some(&self.entries[lo - 1].1)
        } else {
            proof {
                assert forall|t: int| 0 <= t < all.len() implies (#[trigger] all[t]).0 != path@ by {
                    if t < lo {
                        assert(path_le(self.entries@[t].key(), path@));
                        if t < lo - 1 {
                            assert(path_le(self.entries@[t].key(), self.entries@[lo - 1].key()));
                        }
                        if self.entries@[t].key() == path@ {
                            lemma_path_trichotomy(path@, self.entries@[lo - 1].key());
                        }
                    } else {
                        assert(path_lt(path@, self.entries@[t].key()));
                        lemma_path_trichotomy(path@, path@);
                    }
                }
                lemma_last_sum_none(all, path@);
            }
            None
        }
    }
}

} // verus!
