//! The installed packages with their files as `dpkg-query --show` prints
//! them with a format of one line for the package (name, version,
//! architecture, status and modification time, separated by tabulators),
//! the package's files one on a line, and the line `!END`.

use crate::bytes::{
    append_bytes, piece, pieces_of, ranges_of, ranges_view, split_ranges, NEWLINE, TAB,
};
use crate::dpkgcsums::{last_sum, SumIndex};
use crate::numbers::{parse_i64, signed_of};
use crate::package::{Package, PackageView};
use crate::packagefile::{entries_of, PackageFile, PackageFileView};
use crate::text::is_utf8;
use vstd::prelude::*;
use vstd::utf8::valid_utf8;

verus! {

/// What ends a package in the output: the line `!END`.
pub open spec fn end_marker() -> Seq<u8> {
    seq![33u8, 69u8, 78u8, 68u8, 10u8]
}

/// Whether the end marker stands at position `p`.
pub open spec fn marker_at(s: Seq<u8>, p: int) -> bool {
    0 <= p && p + 5 <= s.len() && s.subrange(p, p + 5) == end_marker()
}

/// The start of the output, and the positions behind each end marker that
/// begins before `upto`.
pub open spec fn chunk_ends(s: Seq<u8>, upto: int) -> Seq<int>
    decreases upto,
{
    if upto <= 0 {
        seq![0int]
    } else if marker_at(s, upto - 1) {
        chunk_ends(s, upto - 1).push(upto + 4)
    } else {
        chunk_ends(s, upto - 1)
    }
}

/// The ranges between one of the positions and the next.
pub open spec fn between(ends: Seq<int>) -> Seq<(int, int)> {
    Seq::new((ends.len() - 1) as nat, |k: int| (ends[k], ends[k + 1]))
}

/// Where the packages lie in the output: each from the end of the one
/// before it to the end of its own end marker. What follows the last end
/// marker belongs to no package.
pub open spec fn chunk_ranges_of(s: Seq<u8>) -> Seq<(int, int)> {
    between(chunk_ends(s, s.len() as int))
}

/// The fields of a package's first line.
pub open spec fn header_fields(chunk: Seq<u8>) -> Seq<Seq<u8>> {
    pieces_of(pieces_of(chunk, NEWLINE)[0], TAB)
}

/// A text read as a modification time.
pub open spec fn mtime_of(field: Seq<u8>) -> Result<int, crate::numbers::NumberError> {
    signed_of(field, 10, 0x8000_0000_0000_0000, 0x7fff_ffff_ffff_ffff)
}

/// Whether a package's first line can be read: it has five fields, and
/// the fifth is a modification time.
pub open spec fn header_readable(chunk: Seq<u8>) -> bool {
    let fields = header_fields(chunk);
    fields.len() >= 5 && valid_utf8(fields[4]) && mtime_of(fields[4]) is Ok
}

/// The package that the first line stands for: its full name is the name,
/// a hyphen, the version, a colon and the architecture.
pub open spec fn header_package(chunk: Seq<u8>) -> PackageView {
    let fields = header_fields(chunk);
    let name = fields[0];
    let version = fields[1];
    let arch = fields[2];
    PackageView {
        fullname: name + seq![45u8] + version + seq![58u8] + arch,
        name,
        version,
        arch: Some(arch),
    }
}

/// The modification time that the first line records for the package's
/// files.
pub open spec fn header_mtime(chunk: Seq<u8>) -> int {
    mtime_of(header_fields(chunk)[4])->Ok_0
}

/// Whether a byte is white space.
pub open spec fn is_blank(b: u8) -> bool {
    b == 32 || b == 9 || b == 10 || b == 12 || b == 13
}

/// The first position at or after `i` that holds no white space, or the
/// line's length.
pub open spec fn first_solid(line: Seq<u8>, i: int) -> int
    decreases line.len() - i,
{
    if 0 <= i < line.len() && is_blank(line[i]) {
        first_solid(line, i + 1)
    } else {
        i
    }
}

/// The line without the white space at its start.
pub open spec fn trimmed(line: Seq<u8>) -> Seq<u8> {
    line.subrange(first_solid(line, 0), line.len() as int)
}

/// Whether a trimmed line names a file: it is not empty, not the end
/// marker and not the root `/.`.
pub open spec fn names_file(path: Seq<u8>) -> bool {
    path.len() > 0 && path != seq![33u8, 69u8, 78u8, 68u8] && path != seq![47u8, 46u8]
}

/// The file that a line stands for, if it stands for one: its checksum is
/// the one that the list of checksums holds for its path.
pub open spec fn line_file(
    line: Seq<u8>,
    package_elem: usize,
    mtime: i64,
    sums: Seq<(Seq<u8>, Seq<u8>)>,
) -> Option<PackageFileView> {
    let path = trimmed(line);
    if names_file(path) {
        Some(
            PackageFileView {
                path,
                package: Some(package_elem),
                size: None,
                mode: None,
                chksum: last_sum(sums, path),
                time: Some(mtime),
            },
        )
    } else {
        None
    }
}

/// The files that a list of lines stands for, in order.
pub open spec fn lines_files(
    lines: Seq<Seq<u8>>,
    package_elem: usize,
    mtime: i64,
    sums: Seq<(Seq<u8>, Seq<u8>)>,
) -> Seq<PackageFileView>
    decreases lines.len(),
{
    if lines.len() == 0 {
        Seq::empty()
    } else {
        match line_file(lines.last(), package_elem, mtime, sums) {
            Some(file) => lines_files(lines.drop_last(), package_elem, mtime, sums).push(file),
            None => lines_files(lines.drop_last(), package_elem, mtime, sums),
        }
    }
}

/// The files of a package: what the lines behind its first line stand for.
pub open spec fn chunk_files_of(
    chunk: Seq<u8>,
    package_elem: usize,
    mtime: i64,
    sums: Seq<(Seq<u8>, Seq<u8>)>,
) -> Seq<PackageFileView> {
    lines_files(pieces_of(chunk, NEWLINE).drop_first(), package_elem, mtime, sums)
}

/// The positions are in order, and none lies behind `upto + 4` or the end.
proof fn lemma_chunk_ends(s: Seq<u8>, upto: int)
    requires
        upto <= s.len(),
    ensures
        chunk_ends(s, upto).len() >= 1,
        chunk_ends(s, upto)[0] == 0,
        forall|k: int|
            0 <= k < chunk_ends(s, upto).len() ==> 0 <= (#[trigger] chunk_ends(s, upto)[k])
                <= s.len() && chunk_ends(s, upto)[k] <= (if upto <= 0 {
                0
            } else {
                upto + 4
            }),
        forall|k: int|
            0 <= k < chunk_ends(s, upto).len() - 1 ==> (#[trigger] chunk_ends(s, upto)[k])
                <= chunk_ends(s, upto)[k + 1],
    decreases upto,
{
    if upto > 0 {
        lemma_chunk_ends(s, upto - 1);
        let before = chunk_ends(s, upto - 1);
        let all = chunk_ends(s, upto);
        assert forall|k: int| 0 <= k < all.len() implies 0 <= (#[trigger] all[k]) <= s.len()
            && all[k] <= upto + 4 by {
            if k < before.len() {
                assert(before[k] <= s.len());
            }
        }
        assert forall|k: int| 0 <= k < all.len() - 1 implies (#[trigger] all[k]) <= all[k + 1] by {
            if k + 1 < before.len() {
                assert(before[k] <= before[k + 1]);
            } else {
                assert(before[k] <= upto + 3);
            }
        }
    }
}

/// No end marker begins where fewer than five bytes are left.
proof fn lemma_no_marker_at_the_end(s: Seq<u8>, from: int, upto: int)
    requires
        0 <= from <= upto <= s.len(),
        from + 5 > s.len(),
    ensures
        chunk_ends(s, upto) == chunk_ends(s, from),
    decreases upto - from,
{
    if upto > from {
        lemma_no_marker_at_the_end(s, from, upto - 1);
    }
}

/// Tells where the packages lie in the output.
pub fn chunk_ranges(stdout: &[u8]) -> (ranges: Vec<(usize, usize)>)
    ensures
        ranges_view(ranges@) == chunk_ranges_of(stdout@),
        forall|k: int| 0 <= k < ranges.len() ==> (#[trigger] ranges@[k]).0 <= ranges@[k].1 <= stdout.len(),
{
    let mut ranges: Vec<(usize, usize)> = Vec::new();
    let mut last: usize = 0;
    let mut p: usize = 0;
    assert(ranges_view(ranges@) =~= between(chunk_ends(stdout@, 0)));
    while stdout.len() - p >= 5
        invariant
            p <= stdout.len(),
            last <= stdout.len(),
            chunk_ends(stdout@, p as int).len() >= 1,
            last == chunk_ends(stdout@, p as int).last(),
            ranges_view(ranges@) == between(chunk_ends(stdout@, p as int)),
            forall|k: int| 0 <= k < ranges.len() ==> (#[trigger] ranges@[k]).0 <= ranges@[k].1 <= stdout.len(),
        decreases stdout.len() - p,
    {
        let found = stdout[p] == 33 && stdout[p + 1] == 69 && stdout[p + 2] == 78 && stdout[p + 3]
            == 68 && stdout[p + 4] == 10;
        proof {
            lemma_chunk_ends(stdout@, p as int);
            let here = stdout@.subrange(p as int, p + 5);
            if found {
                assert(here =~= end_marker());
            } else {
                assert(here[0] == stdout@[p as int]);
                assert(here[1] == stdout@[p + 1]);
                assert(here[2] == stdout@[p + 2]);
                assert(here[3] == stdout@[p + 3]);
                assert(here[4] == stdout@[p + 4]);
            }
            assert(found == marker_at(stdout@, p as int));
            let before = chunk_ends(stdout@, p as int);
            if found {
                let grown = ranges_view(ranges@.push((last, (p + 5) as usize)));
                let wanted = between(before.push(p + 5));
                assert(between(before).len() == before.len() - 1);
                assert(ranges_view(ranges@).len() == ranges@.len());
                assert(before.push(p + 5).len() == before.len() + 1);
                assert(grown.len() == wanted.len());
                assert forall|k: int| 0 <= k < grown.len() implies grown[k] == wanted[k] by {
                    if k < ranges@.len() {
                        assert(grown[k] == ranges_view(ranges@)[k]);
                        assert(between(before)[k] == (before[k], before[k + 1]));
                    }
                }
                assert(grown =~= wanted);
            }
        }
        if found {
            ranges.push((last, p + 5));
            last = p + 5;
        }
        p += 1;
    }
    proof {
        lemma_no_marker_at_the_end(stdout@, p as int, stdout@.len() as int);
    }
    ranges
}

/// Reads a package's first line, where it can be read: the package and the
/// modification time of its files. Says `None` where it cannot.
pub fn try_parse_header(chunk: &[u8]) -> (header: Option<(Package, i64)>)
    ensures
        header is Some <==> header_readable(chunk@),
        match header {
            Some((package, mtime)) => package@ == header_package(chunk@) && mtime == header_mtime(
                chunk@,
            ),
            None => true,
        },
{
    let lines = split_ranges(chunk, NEWLINE);
    proof {
        assert(ranges_view(lines@)[0] == ranges_of(chunk@, NEWLINE)[0]);
    }
    let line = piece(chunk, lines[0]);
    assert(line@ == pieces_of(chunk@, NEWLINE)[0]);
    let fields = split_ranges(line, TAB);
    assert(header_fields(chunk@).len() == fields.len());
    if fields.len() < 5 {
        return None;
    }
    proof {
        assert(ranges_view(fields@)[0] == ranges_of(line@, TAB)[0]);
        assert(ranges_view(fields@)[1] == ranges_of(line@, TAB)[1]);
        assert(ranges_view(fields@)[2] == ranges_of(line@, TAB)[2]);
        assert(ranges_view(fields@)[4] == ranges_of(line@, TAB)[4]);
    }
    let time_field = piece(line, fields[4]);
    if !is_utf8(time_field) {
        return None;
    }
    let mtime = match parse_i64(time_field) {
        Ok(mtime) => mtime,
        Err(_) => {
            return None;
        },
    };
    let name = vstd::slice::slice_to_vec(piece(line, fields[0]));
    let version = vstd::slice::slice_to_vec(piece(line, fields[1]));
    let arch = vstd::slice::slice_to_vec(piece(line, fields[2]));
    let mut fullname = vstd::slice::slice_to_vec(name.as_slice());
    fullname.push(45);
    append_bytes(&mut fullname, version.as_slice());
    fullname.push(58);
    append_bytes(&mut fullname, arch.as_slice());
    assert(fullname@ =~= name@ + seq![45u8] + version@ + seq![58u8] + arch@);
    Some((Package::new(fullname, name, version, Some(arch)), mtime))
}

/// Reads a package's first line: the package and the modification time of
/// its files.
pub fn parse_header(chunk: &[u8]) -> (header: (Package, i64))
    requires
        header_readable(chunk@),
    ensures
        header.0@ == header_package(chunk@),
        header.1 == header_mtime(chunk@),
{
    match try_parse_header(chunk) {
        Some(header) => header,
        None => vstd::pervasive::unreached(),
    }
}

fn is_blank_byte(b: u8) -> (blank: bool)
    ensures
        blank == is_blank(b),
{
    b == 32 || b == 9 || b == 10 || b == 12 || b == 13
}

/// Takes the white space off the start of a line.
pub fn trim_start(line: &[u8]) -> (rest: &[u8])
    ensures
        rest@ == trimmed(line@),
{
    let mut i: usize = 0;
    while i < line.len() && is_blank_byte(line[i])
        invariant
            i <= line.len(),
            first_solid(line@, 0) == first_solid(line@, i as int),
        decreases line.len() - i,
    {
        i += 1;
    }
    vstd::slice::slice_subrange(line, i, line.len())
}

fn names_a_file(path: &[u8]) -> (named: bool)
    ensures
        named == names_file(path@),
{
    if path.len() == 0 {
        return false;
    }
    if path.len() == 4 && path[0] == 33 && path[1] == 69 && path[2] == 78 && path[3] == 68 {
        assert(path@ =~= seq![33u8, 69u8, 78u8, 68u8]);
        return false;
    }
    if path.len() == 2 && path[0] == 47 && path[1] == 46 {
        assert(path@ =~= seq![47u8, 46u8]);
        return false;
    }
    true
}

/// Reads the files of a package: one for each line behind the first that,
/// without the white space at its start, is not empty, not the end marker
/// and not `/.`. Each file gets the package's modification time and the
/// checksum that `csums` holds for its path.
pub fn chunk_files(
    chunk: &[u8],
    package_elem: usize,
    mtime: i64,
    csums: &SumIndex,
) -> (files: Vec<PackageFile>)
    ensures
        entries_of(files@) == chunk_files_of(chunk@, package_elem, mtime, csums.sums()),
{
    let lines = split_ranges(chunk, NEWLINE);
    let ghost all = pieces_of(chunk@, NEWLINE);
    let ghost rest = all.drop_first();
    let ghost sums = csums.sums();
    let mut files: Vec<PackageFile> = Vec::new();
    let mut k: usize = 1;
    assert(rest.take(0) =~= Seq::<Seq<u8>>::empty());
    assert(entries_of(files@) =~= lines_files(rest.take(0), package_elem, mtime, sums));
    while k < lines.len()
        invariant
            1 <= k <= lines.len(),
            all == pieces_of(chunk@, NEWLINE),
            rest == all.drop_first(),
            sums == csums.sums(),
            ranges_view(lines@) == ranges_of(chunk@, NEWLINE),
            forall|j: int| 0 <= j < lines.len() ==> (#[trigger] lines@[j]).0 <= lines@[j].1 <= chunk.len(),
            entries_of(files@) == lines_files(rest.take(k - 1), package_elem, mtime, sums),
        decreases lines.len() - k,
    {
        let line = piece(chunk, lines[k]);
        proof {
            assert(ranges_view(lines@)[k as int] == ranges_of(chunk@, NEWLINE)[k as int]);
            assert(line@ == all[k as int]);
            assert(rest.take(k as int).drop_last() =~= rest.take(k - 1));
            assert(rest.take(k as int).last() == line@);
        }
        let path = trim_start(line);
        if names_a_file(path) {
            let chksum = match csums.find(path) {
                Some(sum) => Some(vstd::slice::slice_to_vec(sum.as_slice())),
                None => None,
            };
            let file = PackageFile::new(
                vstd::slice::slice_to_vec(path),
                Some(package_elem),
                None,
                None,
                chksum,
                Some(mtime),
            );
            assert(entries_of(files@.push(file)) =~= entries_of(files@).push(file@));
            files.push(file);
        }
        k += 1;
    }
    assert(rest.take(k - 1) =~= rest);
    files
}

} // verus!
