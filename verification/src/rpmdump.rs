//! The files of one package as `rpm -q --dump` prints them: one line for a
//! file, with the fields path, size, modification time, checksum, mode,
//! owner, group, two flags, device number and link target, separated by
//! spaces. The path may hold spaces; the fields are counted from the end.

use crate::bytes::{piece, pieces_of, ranges_of, ranges_view, split_ranges, NEWLINE, SPACE};
use crate::hex::{pairs_decoded, pairs_readable, try_decode_hex};
use crate::numbers::{parse_i64, parse_unsigned, signed_of, unsigned_of, NumberError};
use crate::packagefile::{entries_of, PackageFile, PackageFileView};
use crate::text::is_utf8;
use vstd::prelude::*;
use vstd::utf8::valid_utf8;

verus! {

/// A field of a line.
#[derive(Clone, Copy, Debug, PartialEq, Eq, Structural)]
pub enum DumpField {
    /// The file's mode, in octal.
    Mode,
    /// The file's size, in decimal.
    Size,
    /// The file's checksum, in hexadecimal.
    Checksum,
    /// The file's modification time, in decimal.
    Time,
}

/// What is wrong with a field.
#[derive(Clone, Copy, Debug, PartialEq, Eq, Structural)]
pub enum DumpCause {
    /// The field is no UTF-8.
    NotUtf8,
    /// The field is no number of the wanted type.
    Number(NumberError),
}

/// Why a line could not be read as a file.
#[derive(Clone, Copy, Debug, PartialEq, Eq, Structural)]
pub struct DumpError {
    /// The field that is wrong.
    pub field: DumpField,
    /// What is wrong with it.
    pub cause: DumpCause,
}

/// Whether a mode is that of a regular file.
pub open spec fn is_regular(mode: u32) -> bool {
    (mode >> 12) & 0xf == 8
}

/// `unix_mode::is_file`: tells whether the mode's type bits are those of a
/// regular file.
#[verifier::external_body]
fn is_file(mode: u32) -> (regular: bool)
    ensures
        regular == is_regular(mode),
{
    unix_mode::is_file(mode)
}

/// A field read as a number without sign.
pub open spec fn field_number(field: Seq<u8>, radix: nat, max: nat) -> Result<nat, DumpCause> {
    if !valid_utf8(field) {
        Err(DumpCause::NotUtf8)
    } else {
        match unsigned_of(field, radix, max) {
            Ok(v) => Ok(v),
            Err(e) => Err(DumpCause::Number(e)),
        }
    }
}

/// A field read as a time.
pub open spec fn field_time(field: Seq<u8>) -> Result<int, DumpCause> {
    if !valid_utf8(field) {
        Err(DumpCause::NotUtf8)
    } else {
        match signed_of(field, 10, 0x8000_0000_0000_0000, 0x7fff_ffff_ffff_ffff) {
            Ok(v) => Ok(v),
            Err(e) => Err(DumpCause::Number(e)),
        }
    }
}

/// Whether a field holds anything but zeros.
pub open spec fn has_nonzero(field: Seq<u8>) -> bool {
    exists|i: int| 0 <= i < field.len() && field[i] != 48
}

/// A field read as a checksum: none where the field holds zeros alone.
pub open spec fn field_checksum(field: Seq<u8>) -> Result<Option<Seq<u8>>, DumpCause> {
    if !valid_utf8(field) {
        Err(DumpCause::NotUtf8)
    } else if !has_nonzero(field) {
        Ok(None)
    } else {
        match pairs_decoded(field, 0) {
            Some(bytes) => Ok(Some(bytes)),
            None => Err(DumpCause::Number(NumberError::InvalidDigit)),
        }
    }
}

/// Size and checksum of a file with the given mode: both are read for a
/// regular file alone.
pub open spec fn attributes_of(size: Seq<u8>, chksum: Seq<u8>, mode: u32) -> Result<
    (Option<usize>, Option<Seq<u8>>),
    DumpError,
> {
    if !is_regular(mode) {
        Ok((None, None))
    } else {
        match field_number(size, 10, usize::MAX as nat) {
            Err(cause) => Err(DumpError { field: DumpField::Size, cause }),
            Ok(s) => match field_checksum(chksum) {
                Err(cause) => Err(DumpError { field: DumpField::Checksum, cause }),
                Ok(c) => Ok((Some(s as usize), c)),
            },
        }
    }
}

/// Whether the reading of a line gets as far as decoding the checksum.
pub open spec fn checksum_reached(line: Seq<u8>) -> bool {
    let fields = pieces_of(line, SPACE);
    let n = fields.len() as int;
    &&& n >= 11
    &&& field_number(fields[n - 7], 8, u32::MAX as nat) is Ok
    &&& is_regular(field_number(fields[n - 7], 8, u32::MAX as nat)->Ok_0 as u32)
    &&& field_number(fields[n - 10], 10, usize::MAX as nat) is Ok
    &&& valid_utf8(fields[n - 8])
    &&& has_nonzero(fields[n - 8])
}

/// Whether a line can be read: it has eleven fields, and its checksum,
/// where the reading gets as far, can be read pair by pair.
pub open spec fn line_readable(line: Seq<u8>) -> bool {
    let fields = pieces_of(line, SPACE);
    let n = fields.len() as int;
    n >= 11 && (checksum_reached(line) ==> pairs_readable(fields[n - 8], 0))
}

/// The file that a line stands for, owned by the package at `rpm_elem`, or
/// the first field that is wrong, in the order mode, size, checksum, time.
pub open spec fn line_record(rpm_elem: usize, line: Seq<u8>) -> Result<PackageFileView, DumpError> {
    let fields = pieces_of(line, SPACE);
    let n = fields.len() as int;
    match field_number(fields[n - 7], 8, u32::MAX as nat) {
        Err(cause) => Err(DumpError { field: DumpField::Mode, cause }),
        Ok(mode) => match attributes_of(fields[n - 10], fields[n - 8], mode as u32) {
            Err(e) => Err(e),
            Ok((size, chksum)) => match field_time(fields[n - 9]) {
                Err(cause) => Err(DumpError { field: DumpField::Time, cause }),
                Ok(time) => Ok(
                    PackageFileView {
                        path: line.take(ranges_of(line, SPACE)[n - 11].1),
                        package: Some(rpm_elem),
                        size,
                        mode: Some(mode as u32),
                        chksum,
                        time: Some(time as i64),
                    },
                ),
            },
        },
    }
}

/// Whether a line of the output stands for a file: it is not empty and
/// does not begin with a bracket, as the note on a package without files
/// does.
pub open spec fn is_entry(line: Seq<u8>) -> bool {
    line.len() > 0 && line[0] != 40
}

/// What the lines from `i` on stand for: the files, or the first error;
/// nothing where a line before the first error cannot be read.
pub open spec fn dump_from(lines: Seq<Seq<u8>>, rpm_elem: usize, i: int) -> Option<
    Result<Seq<PackageFileView>, DumpError>,
>
    decreases lines.len() - i,
{
    if i < 0 || i >= lines.len() {
        Some(Ok(Seq::empty()))
    } else if !is_entry(lines[i]) {
        dump_from(lines, rpm_elem, i + 1)
    } else if !line_readable(lines[i]) {
        None
    } else {
        match line_record(rpm_elem, lines[i]) {
            Err(e) => Some(Err(e)),
            Ok(file) => match dump_from(lines, rpm_elem, i + 1) {
                None => None,
                Some(Err(e)) => Some(Err(e)),
                Some(Ok(rest)) => Some(Ok(seq![file] + rest)),
            },
        }
    }
}

/// What the output stands for: the files of the package at `rpm_elem`, or
/// the first error.
pub open spec fn dump_files(stdout: Seq<u8>, rpm_elem: usize) -> Option<
    Result<Seq<PackageFileView>, DumpError>,
> {
    dump_from(pieces_of(stdout, NEWLINE), rpm_elem, 0)
}

fn read_number(field: &[u8], radix: u64, max: u64) -> (r: Result<u64, DumpCause>)
    requires
        2 <= radix <= 10,
    ensures
        match r {
            Ok(v) => field_number(field@, radix as nat, max as nat) == Ok::<nat, DumpCause>(
                v as nat,
            ) && v <= max,
            Err(e) => field_number(field@, radix as nat, max as nat) == Err::<nat, DumpCause>(e),
        },
{
    if !is_utf8(field) {
        return Err(DumpCause::NotUtf8);
    }
    match parse_unsigned(field, radix, max) {
        Ok(v) => {
            proof {
                crate::numbers::lemma_unsigned_bound(field@, radix as nat, max as nat);
            }
            Ok(v)
        },
        Err(e) => Err(DumpCause::Number(e)),
    }
}

fn read_time(field: &[u8]) -> (r: Result<i64, DumpCause>)
    ensures
        match r {
            Ok(v) => field_time(field@) == Ok::<int, DumpCause>(v as int),
            Err(e) => field_time(field@) == Err::<int, DumpCause>(e),
        },
{
    if !is_utf8(field) {
        return Err(DumpCause::NotUtf8);
    }
    match parse_i64(field) {
        Ok(v) => Ok(v),
        Err(e) => Err(DumpCause::Number(e)),
    }
}

fn has_nonzero_byte(field: &[u8]) -> (found: bool)
    ensures
        found == has_nonzero(field@),
{
    let mut i: usize = 0;
    while i < field.len()
        invariant
            i <= field.len(),
            forall|j: int| 0 <= j < i ==> field@[j] == 48,
        decreases field.len() - i,
    {
        if field[i] != 48 {
            return true;
        }
        i += 1;
    }
    false
}

/// Reads one line as a file of the package at `rpm_elem`, where the line
/// can be read; says `None` where it cannot.
pub fn try_parse_line(rpm_elem: usize, line: &[u8]) -> (parsed: Option<
    Result<PackageFile, DumpError>,
>)
    ensures
        parsed is Some <==> line_readable(line@),
        match parsed {
            Some(Ok(file)) => line_record(rpm_elem, line@) == Ok::<PackageFileView, DumpError>(
                file@,
            ),
            Some(Err(e)) => line_record(rpm_elem, line@) == Err::<PackageFileView, DumpError>(e),
            None => true,
        },
{
    let spaces = split_ranges(line, SPACE);
    let n = spaces.len();
    let ghost fields = pieces_of(line@, SPACE);
    assert(fields.len() == n);
    if n < 11 {
        return None;
    }
    proof {
        assert(ranges_view(spaces@)[n - 11] == ranges_of(line@, SPACE)[n - 11]);
        assert(ranges_view(spaces@)[n - 10] == ranges_of(line@, SPACE)[n - 10]);
        assert(ranges_view(spaces@)[n - 9] == ranges_of(line@, SPACE)[n - 9]);
        assert(ranges_view(spaces@)[n - 8] == ranges_of(line@, SPACE)[n - 8]);
        assert(ranges_view(spaces@)[n - 7] == ranges_of(line@, SPACE)[n - 7]);
    }
    let path_end = spaces[n - 11].1;
    let mode_field = piece(line, spaces[n - 7]);
    let size_field = piece(line, spaces[n - 10]);
    let chksum_field = piece(line, spaces[n - 8]);
    let time_field = piece(line, spaces[n - 9]);
    let mode = match read_number(mode_field, 8, 0xffff_ffff) {
        Ok(mode) => mode as u32,
        Err(cause) => {
            return Some(Err(DumpError { field: DumpField::Mode, cause }));
        },
    };
    let mut size: Option<usize> = None;
    let mut chksum: Option<Vec<u8>> = None;
    if is_file(mode) {
        match read_number(size_field, 10, usize::MAX as u64) {
            Ok(s) => {
                size = Some(s as usize);
            },
            Err(cause) => {
                return Some(Err(DumpError { field: DumpField::Size, cause }));
            },
        }
        if !is_utf8(chksum_field) {
            return Some(
                Err(DumpError { field: DumpField::Checksum, cause: DumpCause::NotUtf8 }),
            );
        }
        if has_nonzero_byte(chksum_field) {
            match try_decode_hex(chksum_field) {
                None => {
                    return None;
                },
                Some(Ok(bytes)) => {
                    chksum = Some(bytes);
                },
                Some(Err(_)) => {
                    return Some(
                        Err(
                            DumpError {
                                field: DumpField::Checksum,
                                cause: DumpCause::Number(NumberError::InvalidDigit),
                            },
                        ),
                    );
                },
            }
        }
    }
    let time = match read_time(time_field) {
        Ok(time) => time,
        Err(cause) => {
            return Some(Err(DumpError { field: DumpField::Time, cause }));
        },
    };
    let path = vstd::slice::slice_to_vec(vstd::slice::slice_subrange(line, 0, path_end));
    Some(Ok(PackageFile::new(path, Some(rpm_elem), size, Some(mode), chksum, Some(time))))
}

/// Reads one line as a file of the package at `rpm_elem`.
pub fn parse_line(rpm_elem: usize, line: &[u8]) -> (parsed: Result<PackageFile, DumpError>)
    requires
        line_readable(line@),
    ensures
        match parsed {
            Ok(file) => line_record(rpm_elem, line@) == Ok::<PackageFileView, DumpError>(file@),
            Err(e) => line_record(rpm_elem, line@) == Err::<PackageFileView, DumpError>(e),
        },
{
    match try_parse_line(rpm_elem, line) {
        Some(parsed) => parsed,
        None => vstd::pervasive::unreached(),
    }
}

/// Reads the files of the package at `rpm_elem`: one file for each line
/// that is not empty and does not begin with a bracket. The first line
/// that is wrong ends the reading with its error. Says `None` where a line
/// before that cannot be read.
pub fn try_get_rpm_dump(stdout: &[u8], rpm_elem: usize) -> (dump: Option<
    Result<Vec<PackageFile>, DumpError>,
>)
    ensures
        match dump {
            Some(Ok(files)) => dump_files(stdout@, rpm_elem) == Some(
                Ok::<Seq<PackageFileView>, DumpError>(entries_of(files@)),
            ),
            Some(Err(e)) => dump_files(stdout@, rpm_elem) == Some(
                Err::<Seq<PackageFileView>, DumpError>(e),
            ),
            None => dump_files(stdout@, rpm_elem) is None,
        },
{
    let lines = split_ranges(stdout, NEWLINE);
    let ghost all = pieces_of(stdout@, NEWLINE);
    let mut files: Vec<PackageFile> = Vec::new();
    let mut k: usize = 0;
    assert(entries_of(files@) =~= Seq::<PackageFileView>::empty());
    while k < lines.len()
        invariant
            k <= lines.len(),
            all == pieces_of(stdout@, NEWLINE),
            ranges_view(lines@) == ranges_of(stdout@, NEWLINE),
            forall|j: int| 0 <= j < lines.len() ==> (#[trigger] lines@[j]).0 <= lines@[j].1 <= stdout.len(),
            match dump_from(all, rpm_elem, k as int) {
                None => dump_from(all, rpm_elem, 0) is None,
                Some(Err(e)) => dump_from(all, rpm_elem, 0) == Some(
                    Err::<Seq<PackageFileView>, DumpError>(e),
                ),
                Some(Ok(rest)) => dump_from(all, rpm_elem, 0) == Some(
                    Ok::<Seq<PackageFileView>, DumpError>(entries_of(files@) + rest),
                ),
            },
        decreases lines.len() - k,
    {
        let line = piece(stdout, lines[k]);
        proof {
            assert(ranges_view(lines@)[k as int] == ranges_of(stdout@, NEWLINE)[k as int]);
            assert(line@ == all[k as int]);
        }
        if line.len() > 0 && line[0] != 40 {
            match try_parse_line(rpm_elem, line) {
                None => {
                    return None;
                },
                Some(Err(e)) => {
                    return Some(Err(e));
                },
                Some(Ok(file)) => {
                    proof {
                        let rest = dump_from(all, rpm_elem, k + 1);
                        if rest is Some && rest->0 is Ok {
                            assert(entries_of(files@.push(file)) + rest->0->Ok_0 =~= entries_of(
                                files@,
                            ) + (seq![file@] + rest->0->Ok_0));
                        }
                    }
                    files.push(file);
                },
            }
        }
        k += 1;
    }
    assert(entries_of(files@) + Seq::<PackageFileView>::empty() =~= entries_of(files@));
    Some(Ok(files))
}

/// Reads the files of the package at `rpm_elem` from an output of which
/// every line up to the first wrong one can be read.
pub fn get_rpm_dump(stdout: &[u8], rpm_elem: usize) -> (dump: Result<Vec<PackageFile>, DumpError>)
    requires
        dump_files(stdout@, rpm_elem) is Some,
    ensures
        match dump {
            Ok(files) => dump_files(stdout@, rpm_elem) == Some(
                Ok::<Seq<PackageFileView>, DumpError>(entries_of(files@)),
            ),
            Err(e) => dump_files(stdout@, rpm_elem) == Some(
                Err::<Seq<PackageFileView>, DumpError>(e),
            ),
        },
{
    match try_get_rpm_dump(stdout, rpm_elem) {
        Some(dump) => dump,
        None => vstd::pervasive::unreached(),
    }
}

} // verus!
