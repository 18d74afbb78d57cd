//! The walk over the live filesystem: what is done with each entry that
//! the walk meets.

use crate::packagedb::{PackageDb, Resolution};
use crate::report::{with_finding, Finding, Report};
use crate::sort::{keys_of, sort_by_key, Keyed};
use vstd::prelude::*;

verus! {

/// A kind of filesystem, as far as the walk tells them apart.
#[derive(Clone, Copy, Debug, PartialEq, Eq, Structural)]
pub enum FsKind {
    /// Process information.
    Proc,
    /// Files in memory.
    Tmpfs,
    /// System information.
    Sysfs,
    /// Kernel debugging.
    Debugfs,
    /// Kernel tracing.
    Tracefs,
    /// Huge pages.
    Hugetlbfs,
    /// Control groups, version 1.
    Cgroup,
    /// Control groups, version 2.
    Cgroup2,
    /// Any other filesystem.
    Other,
}

impl FsKind {
    /// Whether the kernel makes the filesystem up: the walk stays out of
    /// all kinds but `Other`.
    pub open spec fn is_pseudo_spec(self) -> bool {
        self != FsKind::Other
    }

    /// Tells whether the kernel makes the filesystem up.
    #[verifier::when_used_as_spec(is_pseudo_spec)]
    pub fn is_pseudo(self) -> (pseudo: bool)
        ensures
            pseudo == self.is_pseudo_spec(),
    {
        match self {
            FsKind::Other => false,
            _ => true,
        }
    }
}

/// The kind of filesystem that a filesystem type number stands for.
pub open spec fn fs_kind_of(f_type: int) -> FsKind {
    if f_type == 0x9fa0 {
        FsKind::Proc
    } else if f_type == 0x01021994 {
        FsKind::Tmpfs
    } else if f_type == 0x62656572 {
        FsKind::Sysfs
    } else if f_type == 0x64626720 {
        FsKind::Debugfs
    } else if f_type == 0x74726163 {
        FsKind::Tracefs
    } else if f_type == 0x958458f6 {
        FsKind::Hugetlbfs
    } else if f_type == 0x27e0eb {
        FsKind::Cgroup
    } else if f_type == 0x63677270 {
        FsKind::Cgroup2
    } else {
        FsKind::Other
    }
}

/// The filesystem type numbers of `libc` for the filesystems that the
/// kernel makes up: `PROC_SUPER_MAGIC`, `TMPFS_MAGIC`, `SYSFS_MAGIC`,
/// `DEBUGFS_MAGIC`, `TRACEFS_MAGIC`, `HUGETLBFS_MAGIC`,
/// `CGROUP_SUPER_MAGIC` and `CGROUP2_SUPER_MAGIC`, in this order, each as
/// an unsigned number of 32 bits.
#[verifier::external_body]
fn pseudo_fs_magics() -> (magics: [u32; 8])
    ensures
        magics@ == seq![
            0x9fa0u32,
            0x01021994u32,
            0x62656572u32,
            0x64626720u32,
            0x74726163u32,
            0x958458f6u32,
            0x27e0ebu32,
            0x63677270u32,
        ],
{
    [
        libc::PROC_SUPER_MAGIC as u32,
        libc::TMPFS_MAGIC as u32,
        libc::SYSFS_MAGIC as u32,
        libc::DEBUGFS_MAGIC as u32,
        libc::TRACEFS_MAGIC as u32,
        libc::HUGETLBFS_MAGIC as u32,
        libc::CGROUP_SUPER_MAGIC as u32,
        libc::CGROUP2_SUPER_MAGIC as u32,
    ]
}

/// Tells which kind of filesystem a filesystem type number stands for.
pub fn fs_kind(f_type: i64) -> (kind: FsKind)
    ensures
        kind == fs_kind_of(f_type as int),
{
    let magics = pseudo_fs_magics();
    if f_type == magics[0] as i64 {
        FsKind::Proc
    } else if f_type == magics[1] as i64 {
        FsKind::Tmpfs
    } else if f_type == magics[2] as i64 {
        FsKind::Sysfs
    } else if f_type == magics[3] as i64 {
        FsKind::Debugfs
    } else if f_type == magics[4] as i64 {
        FsKind::Tracefs
    } else if f_type == magics[5] as i64 {
        FsKind::Hugetlbfs
    } else if f_type == magics[6] as i64 {
        FsKind::Cgroup
    } else if f_type == magics[7] as i64 {
        FsKind::Cgroup2
    } else {
        FsKind::Other
    }
}

/// Tells whether the filesystem of an entry plays a part in the walk: it
/// does for a directory that is no symbolic link, and into no other entry
/// does the walk go, whatever its filesystem.
pub fn asks_filesystem(is_dir: bool, is_symlink: bool) -> (asked: bool)
    ensures
        asked == (is_dir && !is_symlink),
        !asked ==> forall|fs_type: Option<i64>| !#[trigger] should_recurse_of(
            is_dir,
            is_symlink,
            fs_type,
        ),
{
    is_dir && !is_symlink
}

/// Whether the walk goes into an entry: it is a directory, it is no
/// symbolic link, and its filesystem, where the query for it succeeded, is
/// none that the kernel makes up.
pub open spec fn should_recurse_of(is_dir: bool, is_symlink: bool, fs_type: Option<i64>) -> bool {
    is_dir && !is_symlink && !(fs_type is Some && fs_kind_of(fs_type->0 as int).is_pseudo())
}

/// Tells whether the walk goes into an entry.
pub fn should_recurse(is_dir: bool, is_symlink: bool, fs_type: Option<i64>) -> (recurse: bool)
    ensures
        recurse == should_recurse_of(is_dir, is_symlink, fs_type),
{
    let mut recurse = false;
    if is_dir && !is_symlink {
        recurse = true;
        if let Some(f_type) = fs_type {
            if fs_kind(f_type).is_pseudo() {
                recurse = false;
            }
        }
    }
    recurse
}

/// What the walk found out about one entry.
pub struct EntryProbe {
    /// The entry's path after symbolic links were followed, where that
    /// could be done.
    pub canonical: Resolution,
    /// Whether the entry is a directory, symbolic links followed.
    pub is_dir: bool,
    /// Whether the entry itself is a symbolic link.
    pub is_symlink: bool,
    /// The type number of the entry's filesystem, where the query for it
    /// succeeded.
    pub fs_type: Option<i64>,
    /// The entry's own mode, symbolic links not followed, where it could
    /// be read.
    pub mode: Option<u32>,
}

impl EntryProbe {
    /// The path under which the entry is looked up in the store: the
    /// canonical one, and the entry's own where there is none.
    pub open spec fn lookup_path(&self, ent: Seq<u8>) -> Seq<u8> {
        match self.canonical {
            Resolution::Canonical(p) => p@,
            Resolution::Unresolved => ent,
        }
    }

    /// The mode that is reported for the entry: its own, and 0 where it
    /// could not be read.
    pub open spec fn reported_mode(&self) -> u32 {
        match self.mode {
            Some(mode) => mode,
            None => 0,
        }
    }

    /// Whether the walk goes into the entry. Whether the store knows the
    /// entry plays no part: what lies in a directory that is new is new as
    /// well, and is listed entry by entry.
    pub open spec fn descends(&self) -> bool {
        should_recurse_of(self.is_dir, self.is_symlink, self.fs_type)
    }

    /// What is reported for the entry `ent`, given whether the store knows
    /// it: nothing for an entry that is known, and for another that it is
    /// new, with its own mode.
    pub open spec fn finding(&self, ent: Seq<u8>, known: bool) -> Option<Finding> {
        if known {
            None
        } else {
            Some(Finding::New { path: ent, mode: self.reported_mode() })
        }
    }
}

/// The walk never goes into an entry on a filesystem that the kernel makes
/// up.
pub proof fn lemma_pseudo_fs_not_walked(probe: EntryProbe)
    requires
        probe.fs_type is Some,
        fs_kind_of(probe.fs_type->0 as int).is_pseudo(),
    ensures
        !probe.descends(),
{
}

/// The walk never goes into a symbolic link.
pub proof fn lemma_symlink_not_walked(probe: EntryProbe)
    requires
        probe.is_symlink,
    ensures
        !probe.descends(),
{
}

/// The walk goes into every directory that is no symbolic link and lies on
/// no filesystem that the kernel makes up, also where the store does not
/// know it and it is reported as new.
pub proof fn lemma_directory_walked(probe: EntryProbe, ent: Seq<u8>)
    requires
        probe.is_dir,
        !probe.is_symlink,
        probe.fs_type is Some ==> !fs_kind_of(probe.fs_type->0 as int).is_pseudo(),
    ensures
        probe.descends(),
        probe.finding(ent, false) == Some(Finding::New { path: ent, mode: probe.reported_mode() }),
{
}

/// Puts the entries of one directory into the order in which the walk
/// visits them: byte-lexicographic.
pub fn check_new_dir(ents: Vec<Vec<u8>>) -> (ordered: Vec<Vec<u8>>)
    ensures
        crate::sort::is_stable_sort(ordered@, ents@),
        ordered@.to_multiset() == ents@.to_multiset(),
        ordered.len() == ents.len(),
{
    sort_by_key(ents)
}

/// Deals with one entry of the walk. An entry that the store does not know
/// is reported as new, with its own mode; an entry that the store knows is
/// not reported. The result tells whether the walk goes into the entry: it
/// does for a directory that is no symbolic link and lies on no filesystem
/// that the kernel makes up, whether the store knows the directory or not.
pub fn check_new_ent(ent: Vec<u8>, probe: &EntryProbe, packagedb: &PackageDb, reports: &mut Report) -> (descend:
    bool)
    ensures
        descend == probe.descends(),
        final(reports).findings() == with_finding(
            old(reports).findings(),
            probe.finding(ent@, packagedb.canonical_paths().contains(probe.lookup_path(ent@))),
        ),
        final(reports).patterns() == old(reports).patterns(),
{
    let known = match &probe.canonical {
        Resolution::Canonical(p) => packagedb.find_canonical(p.as_slice()),
        Resolution::Unresolved => packagedb.find_canonical(ent.as_slice()),
    };
    if !known {
        let mode = match probe.mode {
            Some(mode) => mode,
            None => 0,
        };
        reports.add_new(ent, mode);
    }
    should_recurse(probe.is_dir, probe.is_symlink, probe.fs_type)
}

/// The entries that the walk has yet to visit. The walk visits a
/// directory's entries in byte-lexicographic order, and what lies in an
/// entry before the entry that follows it.
pub struct Walker {
    pending: Vec<Vec<u8>>,
}

impl Walker {
    /// The entries that are yet to visit; the last one is visited next.
    pub closed spec fn pending(&self) -> Seq<Seq<u8>> {
        keys_of(self.pending@)
    }

    /// Starts a walk with nothing to visit.
    pub fn new() -> (walker: Self)
        ensures
            walker.pending() == Seq::<Seq<u8>>::empty(),
    {
        let walker = Walker { pending: Vec::new() };
        assert(walker.pending() =~= Seq::<Seq<u8>>::empty());
        walker
    }

    /// Takes in the entries of a directory that the walk goes into: they
    /// are visited before all that was pending, the smallest first.
    pub fn push_dir(&mut self, ents: Vec<Vec<u8>>)
        ensures
            final(self).pending().len() == old(self).pending().len() + ents.len(),
            final(self).pending().take(old(self).pending().len() as int) == old(self).pending(),
            crate::packagedb::in_path_order(
                final(self).pending().skip(old(self).pending().len() as int).reverse(),
            ),
            final(self).pending().skip(old(self).pending().len() as int).to_multiset() == keys_of(
                ents@,
            ).to_multiset(),
    {
        let ghost before = self.pending();
        let mut ordered = check_new_dir(ents);
        let ghost sorted = keys_of(ordered@);
        proof {
            crate::sort::lemma_map_values_multiset(ordered@, ents@, |x: Vec<u8>| x@);
            assert(keys_of(ordered@) =~= ordered@.map_values(|x: Vec<u8>| x@));
            assert(keys_of(ents@) =~= ents@.map_values(|x: Vec<u8>| x@));
            sorted.lemma_reverse_to_multiset();
            assert(sorted.skip(sorted.len() as int) =~= Seq::<Seq<u8>>::empty());
            assert(before + Seq::<Seq<u8>>::empty() =~= before);
            assert(Seq::<Seq<u8>>::empty().reverse() =~= Seq::<Seq<u8>>::empty());
            assert forall|i: int, j: int| 0 <= i < j < sorted.len() implies crate::path::path_le(
                sorted[i],
                sorted[j],
            ) by {
                assert(crate::path::path_le(ordered@[i].key(), ordered@[j].key()));
            }
        }
        while ordered.len() > 0
            invariant
                ordered.len() <= sorted.len(),
                keys_of(ordered@) == sorted.take(ordered.len() as int),
                self.pending() == before + sorted.skip(ordered.len() as int).reverse(),
            decreases ordered.len(),
        {
            let ghost n = ordered.len() as int;
            let ent = ordered.pop().unwrap();
            proof {
                assert(sorted.take(n)[n - 1] == ent@);
                assert(keys_of(ordered@) =~= sorted.take(n - 1));
                assert(sorted.skip(n - 1).reverse() =~= sorted.skip(n).reverse().push(sorted[n - 1]));
                assert(keys_of(self.pending@.push(ent)) =~= keys_of(self.pending@).push(ent@));
            }
            self.pending.push(ent);
        }
        proof {
            assert(sorted.skip(0) =~= sorted);
            let after = self.pending();
            assert(after.take(before.len() as int) =~= before);
            assert(after.skip(before.len() as int) =~= sorted.reverse());
            assert(sorted.reverse().reverse() =~= sorted);
        }
    }

    /// Takes out the entry that is visited next, if one is left.
    pub fn next(&mut self) -> (ent: Option<Vec<u8>>)
        ensures
            match ent {
                Some(e) => old(self).pending().len() > 0 && e@ == old(self).pending().last()
                    && final(self).pending() == old(self).pending().drop_last(),
                None => old(self).pending().len() == 0 && final(self).pending() == old(
                    self,
                ).pending(),
            },
    {
        let ghost before = self.pending@;
        let ent = self.pending.pop();
        proof {
            if before.len() > 0 {
                assert(keys_of(before).drop_last() =~= keys_of(before.drop_last()));
            }
        }
        ent
    }
}

} // verus!
