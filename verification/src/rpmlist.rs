//! The list of installed packages as `rpm -qa` prints it with the query
//! format `%{NAME}\t%{VERSION}\t%{RELEASE}\t%{ARCH}\n`.

use crate::bytes::{
    append_bytes, piece, pieces_of, ranges_of, ranges_view, split_ranges, NEWLINE, TAB,
};
use crate::package::{Package, PackageView};
use vstd::prelude::*;

verus! {

/// What `rpm` prints for a tag without value: `(none)`.
pub open spec fn none_marker() -> Seq<u8> {
    seq![40u8, 110u8, 111u8, 110u8, 101u8, 41u8]
}

/// The hyphen that joins the parts of a name.
pub const HYPHEN: u8 = 45;

/// The value of a field; nothing for a tag without value.
pub open spec fn term_of(field: Seq<u8>) -> Option<Seq<u8>> {
    if field == none_marker() {
        None
    } else {
        Some(field)
    }
}

/// Version and release as one: both with a hyphen between them, or the
/// one that has a value.
pub open spec fn full_version(ver: Option<Seq<u8>>, rel: Option<Seq<u8>>) -> Option<Seq<u8>> {
    match ver {
        Some(v) => match rel {
            Some(r) => Some(v + seq![HYPHEN] + r),
            None => Some(v),
        },
        None => rel,
    }
}

/// Whether a line can be read as a package: it has four fields, and the
/// name has a value.
pub open spec fn line_readable(line: Seq<u8>) -> bool {
    pieces_of(line, TAB).len() >= 4 && pieces_of(line, TAB)[0] != none_marker()
}

/// The package that a line stands for.
pub open spec fn line_package(line: Seq<u8>) -> PackageView {
    let fields = pieces_of(line, TAB);
    let name = fields[0];
    let version = full_version(term_of(fields[1]), term_of(fields[2]));
    PackageView {
        fullname: match version {
            Some(v) => name + seq![HYPHEN] + v,
            None => name,
        },
        name,
        version: match version {
            Some(v) => v,
            None => Seq::empty(),
        },
        arch: term_of(fields[3]),
    }
}

/// Whether a line is kept: it is not empty.
pub open spec fn is_entry(line: Seq<u8>) -> bool {
    line.len() > 0
}

/// Whether every line of the output that is not empty can be read.
pub open spec fn list_readable(stdout: Seq<u8>) -> bool {
    forall|k: int|
        0 <= k < pieces_of(stdout, NEWLINE).len() && is_entry(
            #[trigger] pieces_of(stdout, NEWLINE)[k],
        ) ==> line_readable(pieces_of(stdout, NEWLINE)[k])
}

/// The packages that the output lists, in its order.
pub open spec fn list_packages(stdout: Seq<u8>) -> Seq<PackageView> {
    pieces_of(stdout, NEWLINE).filter(|l: Seq<u8>| is_entry(l)).map_values(
        |l: Seq<u8>| line_package(l),
    )
}

/// The view of a value that may be missing.
pub open spec fn term_view(value: Option<Vec<u8>>) -> Option<Seq<u8>> {
    match value {
        Some(v) => Some(v@),
        None => None,
    }
}

fn is_none_marker(field: &[u8]) -> (none: bool)
    ensures
        none == (field@ == none_marker()),
{
    if field.len() == 6 && field[0] == 40 && field[1] == 110 && field[2] == 111 && field[3] == 110
        && field[4] == 101 && field[5] == 41 {
        assert(field@ =~= none_marker());
        true
    } else {
        false
    }
}

/// Reads a field: its value, and nothing for a tag without value.
pub fn term(field: &[u8]) -> (value: Option<Vec<u8>>)
    ensures
        term_view(value) == term_of(field@),
{
    if is_none_marker(field) {
        None
    } else {
        Some(vstd::slice::slice_to_vec(field))
    }
}

/// Tells whether a line can be read as a package.
pub fn is_list_line(line: &[u8]) -> (readable: bool)
    ensures
        readable == line_readable(line@),
{
    let fields = split_ranges(line, TAB);
    proof {
        assert(pieces_of(line@, TAB).len() == fields.len());
        if fields.len() >= 4 {
            assert(ranges_view(fields@)[0] == ranges_of(line@, TAB)[0]);
        }
    }
    fields.len() >= 4 && !is_none_marker(piece(line, fields[0]))
}

/// Reads one line of the list as a package.
pub fn parse_list_line(line: &[u8]) -> (package: Package)
    requires
        line_readable(line@),
    ensures
        package@ == line_package(line@),
{
    let fields = split_ranges(line, TAB);
    proof {
        assert(pieces_of(line@, TAB).len() == fields.len());
        assert(ranges_view(fields@)[0] == ranges_of(line@, TAB)[0]);
        assert(ranges_view(fields@)[1] == ranges_of(line@, TAB)[1]);
        assert(ranges_view(fields@)[2] == ranges_of(line@, TAB)[2]);
        assert(ranges_view(fields@)[3] == ranges_of(line@, TAB)[3]);
    }
    let name = vstd::slice::slice_to_vec(piece(line, fields[0]));
    let ver = term(piece(line, fields[1]));
    let rel = term(piece(line, fields[2]));
    let arch = term(piece(line, fields[3]));
    let version = match ver {
        Some(ver) => match rel {
            Some(rel) => {
                let mut joined = ver;
                joined.push(HYPHEN);
                append_bytes(&mut joined, rel.as_slice());
                assert(joined@ =~= ver@ + seq![HYPHEN] + rel@);
                Some(joined)
            },
            None => Some(ver),
        },
        None => rel,
    };
    let mut fullname = vstd::slice::slice_to_vec(name.as_slice());
    match version {
        Some(version) => {
            fullname.push(HYPHEN);
            append_bytes(&mut fullname, version.as_slice());
            assert(fullname@ =~= name@ + seq![HYPHEN] + version@);
            Package::new(fullname, name, version, arch)
        },
        None => Package::new(fullname, name, Vec::new(), arch),
    }
}

/// Tells whether every line of the output that is not empty can be read as
/// a package.
pub fn is_rpm_list(stdout: &[u8]) -> (readable: bool)
    ensures
        readable == list_readable(stdout@),
{
    let lines = split_ranges(stdout, NEWLINE);
    let ghost all = pieces_of(stdout@, NEWLINE);
    let mut k: usize = 0;
    while k < lines.len()
        invariant
            k <= lines.len(),
            all == pieces_of(stdout@, NEWLINE),
            ranges_view(lines@) == ranges_of(stdout@, NEWLINE),
            forall|j: int| 0 <= j < lines.len() ==> (#[trigger] lines@[j]).0 <= lines@[j].1 <= stdout.len(),
            forall|j: int| 0 <= j < k && is_entry(#[trigger] all[j]) ==> line_readable(all[j]),
        decreases lines.len() - k,
    {
        let line = piece(stdout, lines[k]);
        proof {
            assert(ranges_view(lines@)[k as int] == ranges_of(stdout@, NEWLINE)[k as int]);
            assert(line@ == all[k as int]);
        }
        if line.len() > 0 && !is_list_line(line) {
            return false;
        }
        k += 1;
    }
    true
}

/// Reads the list of installed packages: one package for each line that
/// is not empty.
pub fn get_rpm_list(stdout: &[u8]) -> (rpms: Vec<Package>)
    requires
        list_readable(stdout@),
    ensures
        rpms@.map_values(|p: Package| p@) == list_packages(stdout@),
{
    let lines = split_ranges(stdout, NEWLINE);
    let ghost all = pieces_of(stdout@, NEWLINE);
    let ghost keep = |l: Seq<u8>| is_entry(l);
    let ghost read = |l: Seq<u8>| line_package(l);
    let mut rpms: Vec<Package> = Vec::new();
    let mut k: usize = 0;
    proof {
        reveal(Seq::filter);
        assert(all.take(0) =~= Seq::<Seq<u8>>::empty());
        assert(rpms@.map_values(|p: Package| p@) =~= all.take(0).filter(keep).map_values(read));
    }
    while k < lines.len()
        invariant
            k <= lines.len(),
            list_readable(stdout@),
            all == pieces_of(stdout@, NEWLINE),
            keep == |l: Seq<u8>| is_entry(l),
            read == |l: Seq<u8>| line_package(l),
            ranges_view(lines@) == ranges_of(stdout@, NEWLINE),
            forall|j: int| 0 <= j < lines.len() ==> (#[trigger] lines@[j]).0 <= lines@[j].1 <= stdout.len(),
            rpms@.map_values(|p: Package| p@) == all.take(k as int).filter(keep).map_values(read),
        decreases lines.len() - k,
    {
        let line = piece(stdout, lines[k]);
        proof {
            assert(ranges_view(lines@)[k as int] == ranges_of(stdout@, NEWLINE)[k as int]);
            assert(line@ == all[k as int]);
            assert(all.take(k + 1) =~= all.take(k as int).push(line@));
            all.take(k as int).lemma_filter_push(line@, keep);
        }
        if line.len() > 0 {
            let package = parse_list_line(line);
            proof {
                let done = all.take(k as int).filter(keep);
                assert(done.push(line@).map_values(read) =~= done.map_values(read).push(
                    line_package(line@),
                ));
                assert(rpms@.push(package).map_values(|p: Package| p@) =~= rpms@.map_values(
                    |p: Package| p@,
                ).push(package@));
            }
            rpms.push(package);
        }
        k += 1;
    }
    assert(all.take(k as int) =~= all);
    rpms
}

} // verus!
