//! A tracked file: a path that the package database says should exist, with
//! the attributes that were recorded for it.

use crate::sort::Keyed;
use vstd::prelude::*;

verus! {

/// A file or directory that the package database knows.
#[derive(Debug)]
pub struct PackageFile {
    path: Vec<u8>,
    package: Option<usize>,
    size: Option<usize>,
    mode: Option<u32>,
    chksum: Option<Vec<u8>>,
    time: Option<i64>,
}

/// What a tracked file holds, as plain values.
pub ghost struct PackageFileView {
    /// The absolute path.
    pub path: Seq<u8>,
    /// The position of the owning package in the list of packages.
    pub package: Option<usize>,
    /// The recorded size in bytes.
    pub size: Option<usize>,
    /// The recorded mode: type bits and permission bits.
    pub mode: Option<u32>,
    /// The recorded checksum.
    pub chksum: Option<Seq<u8>>,
    /// The recorded modification time, in seconds since the epoch.
    pub time: Option<i64>,
}

/// A directory that no package lists: a path and nothing else.
pub open spec fn bare_entry(path: Seq<u8>) -> PackageFileView {
    PackageFileView { path, package: None, size: None, mode: None, chksum: None, time: None }
}

impl PackageFileView {
    /// An entry without an owner carries no attribute.
    pub open spec fn well_formed(self) -> bool {
        self.package is None ==> self == bare_entry(self.path)
    }
}

impl View for PackageFile {
    type V = PackageFileView;

    closed spec fn view(&self) -> PackageFileView {
        PackageFileView {
            path: self.path@,
            package: self.package,
            size: self.size,
            mode: self.mode,
            chksum: match self.chksum {
                Some(c) => Some(c@),
                None => None,
            },
            time: self.time,
        }
    }
}

impl Keyed for PackageFile {
    open spec fn key(&self) -> Seq<u8> {
        self@.path
    }

    fn key_bytes(&self) -> (k: &[u8]) {
        self.path.as_slice()
    }
}

/// The views of a list of tracked files.
pub open spec fn entries_of(files: Seq<PackageFile>) -> Seq<PackageFileView> {
    files.map_values(|f: PackageFile| f@)
}

/// The test for entries with the path `k`.
pub open spec fn at_path(k: Seq<u8>) -> spec_fn(PackageFileView) -> bool {
    |e: PackageFileView| e.path == k
}

/// The entries of a list that have the path `k`, in the list's order.
pub open spec fn entries_at(es: Seq<PackageFileView>, k: Seq<u8>) -> Seq<PackageFileView> {
    es.filter(at_path(k))
}

/// The entries with the path `k` among the views of a list of tracked
/// files are the views of the files with the path `k`.
pub proof fn lemma_entries_at(files: Seq<PackageFile>, k: Seq<u8>)
    ensures
        entries_at(entries_of(files), k) == entries_of(crate::sort::with_key(files, k)),
{
    vstd::seq_lib::lemma_filter_view_commute(files, crate::sort::has_key::<PackageFile>(k), at_path(k));
    assert(files.map_values(|x: PackageFile| x.view()) =~= entries_of(files));
    let kept = crate::sort::with_key(files, k);
    assert(kept.map_values(|x: PackageFile| x.view()) =~= entries_of(kept));
}

/// The view of a recorded checksum.
pub open spec fn checksum_view(chksum: Option<Vec<u8>>) -> Option<Seq<u8>> {
    match chksum {
        Some(c) => Some(c@),
        None => None,
    }
}

impl PackageFile {
    /// Makes a tracked file from its path and what was recorded for it.
    pub fn new(
        path: Vec<u8>,
        package: Option<usize>,
        size: Option<usize>,
        mode: Option<u32>,
        chksum: Option<Vec<u8>>,
        time: Option<i64>,
    ) -> (file: Self)
        ensures
            file@ == (PackageFileView {
                path: path@,
                package,
                size,
                mode,
                chksum: checksum_view(chksum),
                time,
            }),
    {
        Self { path, package, size, mode, chksum, time }
    }

    /// Makes the entry of a directory that no package lists.
    pub fn synthesized(path: Vec<u8>) -> (file: Self)
        ensures
            file@ == bare_entry(path@),
    {
        Self { path, package: None, size: None, mode: None, chksum: None, time: None }
    }

    /// The absolute path.
    pub fn path(&self) -> (path: &Vec<u8>)
        ensures
            path@ == self@.path,
    {
        &self.path
    }

    /// The position of the owning package, if a package owns the entry.
    pub fn package(&self) -> (package: &Option<usize>)
        ensures
            *package == self@.package,
    {
        &self.package
    }

    /// The recorded size in bytes.
    pub fn size(&self) -> (size: &Option<usize>)
        ensures
            *size == self@.size,
    {
        &self.size
    }

    /// The recorded mode.
    pub fn mode(&self) -> (mode: &Option<u32>)
        ensures
            *mode == self@.mode,
    {
        &self.mode
    }

    /// The recorded checksum.
    pub fn chksum(&self) -> (chksum: &Option<Vec<u8>>)
        ensures
            checksum_view(*chksum) == self@.chksum,
    {
        &self.chksum
    }

    /// The recorded modification time.
    pub fn time(&self) -> (time: &Option<i64>)
        ensures
            *time == self@.time,
    {
        &self.time
    }
}

} // verus!
