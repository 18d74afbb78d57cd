//! The verifier: what is reported for one tracked file, given what was
//! found on disk.

use crate::check::CheckArgs;
use crate::checksum::{algorithm_for, content_matches, Algorithm, DigestError};
use crate::package::PackageView;
use crate::packagedb::{owner_text, PackageDb};
use crate::packagefile::{PackageFile, PackageFileView};
use crate::report::{with_finding, Finding, Report};
use crate::text::{decimal, mode_string, mode_text, push_decimal};
use vstd::prelude::*;
use vstd::string::StringExecFns;

verus! {

/// What a look at a path found, without following a symbolic link.
#[derive(Clone, Copy, Debug, PartialEq, Eq, Structural)]
pub struct LiveMeta {
    /// The mode: type bits and permission bits.
    pub mode: u32,
    /// The size in bytes.
    pub size: u64,
    /// The modification time, in seconds since the epoch.
    pub mtime: i64,
    /// Whether the path is a regular file.
    pub is_file: bool,
}

/// How the look at a tracked path ended.
#[derive(Clone, Copy, Debug, PartialEq, Eq, Structural)]
pub enum StatOutcome {
    /// The path is there.
    Found(LiveMeta),
    /// The path does not exist.
    NotFound,
    /// The look failed for another reason.
    Failed,
}

/// How the verification of a checksum ended.
#[derive(Clone, Copy, Debug, PartialEq, Eq, Structural)]
pub enum DigestOutcome {
    /// The content has the recorded checksum.
    Match,
    /// The content has another checksum.
    Mismatch,
    /// The checksum could not be verified.
    Failed,
}

/// What the verifier needs next for a tracked file.
#[derive(Clone, Copy, Debug, PartialEq, Eq, Structural)]
pub enum VerifyStep {
    /// The file is dealt with.
    Done,
    /// The look at the path failed: the file is passed over.
    StatFailed,
    /// The file's content is needed, to verify its checksum with this
    /// algorithm.
    NeedContent(Algorithm),
    /// The recorded checksum cannot be verified; the file is dealt with.
    DigestFailed(DigestError),
}

/// The description of a changed mode.
pub open spec fn mode_description(expected: u32, live: u32) -> Seq<char> {
    "mode from "@ + mode_string(expected) + " to "@ + mode_string(live)
}

/// The description of a changed size.
pub open spec fn size_description(expected: usize, live: u64) -> Seq<char> {
    "size from "@ + decimal(expected as nat) + " to "@ + decimal(live as nat)
}

/// The description of a changed checksum.
pub open spec fn hash_description() -> Seq<char> {
    "Hash changed"@
}

/// The description of a later modification time.
pub open spec fn mtime_description() -> Seq<char> {
    "Modification time later"@
}

/// The change that mode and size show: a recorded mode that differs from
/// the live one, else a recorded size that differs from the live one.
pub open spec fn attribute_change_of(file: PackageFileView, meta: LiveMeta) -> Option<Seq<char>> {
    if file.mode is Some && file.mode->0 != meta.mode {
        Some(mode_description(file.mode->0, meta.mode))
    } else if file.size is Some && file.size->0 as u64 != meta.size {
        Some(size_description(file.size->0, meta.size))
    } else {
        None
    }
}

/// Whether the file's checksum is to be verified.
pub open spec fn wants_digest(file: PackageFileView, checksum: bool) -> bool {
    checksum && file.chksum is Some
}

/// The change that the modification time shows: a regular file that was
/// modified strictly later than recorded.
pub open spec fn mtime_change_of(file: PackageFileView, meta: LiveMeta) -> Option<Seq<char>> {
    if meta.is_file && file.time is Some && meta.mtime > file.time->0 {
        Some(mtime_description())
    } else {
        None
    }
}

/// The change that remains once mode and size agree: a checksum that does
/// not match, else a later modification time.
pub open spec fn later_change_of(
    file: PackageFileView,
    meta: LiveMeta,
    checksum: bool,
    digest: DigestOutcome,
) -> Option<Seq<char>> {
    if wants_digest(file, checksum) && digest == DigestOutcome::Mismatch {
        Some(hash_description())
    } else {
        mtime_change_of(file, meta)
    }
}

/// The change that is reported for a file that is on disk: the first
/// mismatch in the order mode, size, checksum, modification time.
pub open spec fn file_change_of(
    file: PackageFileView,
    meta: LiveMeta,
    checksum: bool,
    digest: DigestOutcome,
) -> Option<Seq<char>> {
    match attribute_change_of(file, meta) {
        Some(desc) => Some(desc),
        None => later_change_of(file, meta, checksum, digest),
    }
}

/// How the verification of the file's checksum ends, given the content or
/// the fact that it could not be had.
pub open spec fn content_outcome(file: PackageFileView, content: Option<Seq<u8>>) -> DigestOutcome {
    if file.chksum is Some && content is Some {
        match content_matches(file.chksum->0, content->0) {
            Some(true) => DigestOutcome::Match,
            Some(false) => DigestOutcome::Mismatch,
            None => DigestOutcome::Failed,
        }
    } else {
        DigestOutcome::Failed
    }
}

/// The finding for a change of a tracked file, if there is a change.
pub open spec fn change_finding(
    packages: Seq<PackageView>,
    file: PackageFileView,
    change: Option<Seq<char>>,
) -> Option<Finding> {
    match change {
        Some(desc) => Some(
            Finding::Changed {
                path: file.path,
                owner: owner_text(packages, file.package, false),
                desc,
            },
        ),
        None => None,
    }
}

/// What is reported for one tracked file: that it is missing, where it
/// does not exist and missing files are reported; its first change, where
/// it exists and changes are reported; nothing where the look at it failed.
pub open spec fn entry_finding(
    packages: Seq<PackageView>,
    file: PackageFileView,
    args: CheckArgs,
    stat: StatOutcome,
    digest: DigestOutcome,
) -> Option<Finding> {
    match stat {
        StatOutcome::NotFound => if args.missing {
            Some(
                Finding::Missing {
                    path: file.path,
                    owner: owner_text(packages, file.package, false),
                },
            )
        } else {
            None
        },
        StatOutcome::Failed => None,
        StatOutcome::Found(meta) => if args.changed {
            change_finding(packages, file, file_change_of(file, meta, args.checksum, digest))
        } else {
            None
        },
    }
}

/// Whether the file's content is needed before the file is dealt with, and
/// with which algorithm its checksum is then verified: changes are
/// reported, the file is there, mode and size agree, and a checksum of a
/// known length is to be verified.
pub open spec fn needs_content(file: PackageFileView, args: CheckArgs, stat: StatOutcome) -> Option<
    Algorithm,
> {
    if stat is Found && args.changed && attribute_change_of(file, stat->0) is None && wants_digest(
        file,
        args.checksum,
    ) {
        algorithm_for(file.chksum->0.len())
    } else {
        None
    }
}

/// What the first step for a file says is needed next: the content, where
/// it is needed; that the look failed; that the checksum's length fits no
/// algorithm, where a checksum was to be verified and mode and size agree;
/// else that the file is dealt with.
pub open spec fn first_step(file: PackageFileView, args: CheckArgs, stat: StatOutcome) -> VerifyStep {
    match needs_content(file, args, stat) {
        Some(algorithm) => VerifyStep::NeedContent(algorithm),
        None => if stat is Failed {
            VerifyStep::StatFailed
        } else if stat is Found && args.changed && attribute_change_of(file, stat->0) is None
            && wants_digest(file, args.checksum) {
            VerifyStep::DigestFailed(DigestError::UnknownLength(file.chksum->0.len() as usize))
        } else {
            VerifyStep::Done
        },
    }
}

/// The findings after the first step for a file: as before where the
/// content is needed, and else with what is reported for the file where
/// no checksum is verified.
pub open spec fn first_findings(
    packages: Seq<PackageView>,
    file: PackageFileView,
    args: CheckArgs,
    stat: StatOutcome,
    before: Seq<Finding>,
) -> Seq<Finding> {
    if needs_content(file, args, stat) is Some {
        before
    } else {
        with_finding(before, entry_finding(packages, file, args, stat, DigestOutcome::Failed))
    }
}

/// What `verify` may do with a file: the step it returns and the findings
/// it leaves, given the findings before.
pub open spec fn verify_allows(
    packages: Seq<PackageView>,
    file: PackageFileView,
    args: CheckArgs,
    stat: StatOutcome,
    before: Seq<Finding>,
    after: Seq<Finding>,
    step: VerifyStep,
) -> bool {
    step == first_step(file, args, stat) && after == first_findings(
        packages,
        file,
        args,
        stat,
        before,
    )
}

/// The view of a description that may be missing.
pub open spec fn description_view(desc: Option<String>) -> Option<Seq<char>> {
    match desc {
        Some(d) => Some(d@),
        None => None,
    }
}

/// A file whose mode changed is reported with the mode's description,
/// whatever else changed.
pub proof fn lemma_first_mismatch_wins(
    file: PackageFileView,
    meta: LiveMeta,
    checksum: bool,
    digest: DigestOutcome,
)
    requires
        file.mode is Some,
        file.mode->0 != meta.mode,
    ensures
        file_change_of(file, meta, checksum, digest) == Some(
            mode_description(file.mode->0, meta.mode),
        ),
{
}

/// A file whose mode agrees and whose size changed is reported with the
/// size's description, whatever checksum and modification time say.
pub proof fn lemma_size_before_content(
    file: PackageFileView,
    meta: LiveMeta,
    checksum: bool,
    digest: DigestOutcome,
)
    requires
        file.mode is Some ==> file.mode->0 == meta.mode,
        file.size is Some,
        file.size->0 as u64 != meta.size,
    ensures
        file_change_of(file, meta, checksum, digest) == Some(
            size_description(file.size->0, meta.size),
        ),
{
}

/// An entry without recorded attributes is never reported as changed.
pub proof fn lemma_bare_entry_unchanged(
    path: Seq<u8>,
    meta: LiveMeta,
    checksum: bool,
    digest: DigestOutcome,
)
    ensures
        file_change_of(crate::packagefile::bare_entry(path), meta, checksum, digest) is None,
{
}

/// A modification time that is not later than the recorded one is no
/// change.
pub proof fn lemma_earlier_mtime_is_no_change(file: PackageFileView, meta: LiveMeta)
    requires
        file.time is Some,
        meta.mtime <= file.time->0,
    ensures
        mtime_change_of(file, meta) is None,
{
}

/// Two runs of `verify` over one file, with the same store, the same
/// choices, the same look at the disk and the same findings before, return
/// the same step and leave the same findings: what `verify` may do leaves
/// nothing open.
pub proof fn lemma_verify_repeatable(
    packages: Seq<PackageView>,
    file: PackageFileView,
    args: CheckArgs,
    stat: StatOutcome,
    before: Seq<Finding>,
    first: Seq<Finding>,
    step_one: VerifyStep,
    second: Seq<Finding>,
    step_two: VerifyStep,
)
    requires
        verify_allows(packages, file, args, stat, before, first, step_one),
        verify_allows(packages, file, args, stat, before, second, step_two),
    ensures
        first == second,
        step_one == step_two,
{
}

/// Where the content was needed, what the second step reports is what is
/// reported for the file.
pub proof fn lemma_steps_agree(
    packages: Seq<PackageView>,
    file: PackageFileView,
    args: CheckArgs,
    meta: LiveMeta,
    digest: DigestOutcome,
)
    requires
        needs_content(file, args, StatOutcome::Found(meta)) is Some,
    ensures
        entry_finding(packages, file, args, StatOutcome::Found(meta), digest) == change_finding(
            packages,
            file,
            later_change_of(file, meta, true, digest),
        ),
{
}

/// Describes the change that mode and size show, if they show one.
pub fn attribute_change(file: &PackageFile, meta: &LiveMeta) -> (desc: Option<String>)
    ensures
        description_view(desc) == attribute_change_of(file@, *meta),
{
    if let Some(mode) = file.mode() {
        if meta.mode != *mode {
            let mut desc = String::from_str("mode from ");
            desc.append(mode_text(*mode).as_str());
            desc.append(" to ");
            desc.append(mode_text(meta.mode).as_str());
            return Some(desc);
        }
    }
    if let Some(size) = file.size() {
        if meta.size != *size as u64 {
            let mut desc = String::from_str("size from ");
            push_decimal(&mut desc, *size as u64);
            desc.append(" to ");
            push_decimal(&mut desc, meta.size);
            return Some(desc);
        }
    }
    None
}

/// Describes the change that the modification time shows, if it shows one.
pub fn mtime_change(file: &PackageFile, meta: &LiveMeta) -> (desc: Option<String>)
    ensures
        description_view(desc) == mtime_change_of(file@, *meta),
{
    if meta.is_file {
        if let Some(mtime) = file.time() {
            if meta.mtime > *mtime {
                return Some(String::from_str("Modification time later"));
            }
        }
    }
    None
}

/// Describes the change of a file that is on disk, given how the
/// verification of its checksum ended: the first mismatch in the order
/// mode, size, checksum, modification time.
pub fn verify_file(file: &PackageFile, checksum: bool, meta: &LiveMeta, digest: DigestOutcome) -> (desc:
    Option<String>)
    ensures
        description_view(desc) == file_change_of(file@, *meta, checksum, digest),
{
    match attribute_change(file, meta) {
        Some(desc) => Some(desc),
        None => {
            if checksum && file.chksum().is_some() && digest == DigestOutcome::Mismatch {
                Some(String::from_str("Hash changed"))
            } else {
                mtime_change(file, meta)
            }
        },
    }
}

/// Records a change of a tracked file, if there is one.
fn report_change(packagedb: &PackageDb, reports: &mut Report, file: &PackageFile, desc: Option<String>)
    requires
        match file@.package {
            Some(i) => i < packagedb.packages_view().len(),
            None => true,
        },
    ensures
        final(reports).findings() == with_finding(
            old(reports).findings(),
            change_finding(packagedb.packages_view(), file@, description_view(desc)),
        ),
        final(reports).patterns() == old(reports).patterns(),
{
    match desc {
        Some(d) => reports.add_change(packagedb, file, d),
        None => {},
    }
}

/// Takes the first step for the tracked file at `idx`, given the look at
/// its path. A file that does not exist is reported as missing, and one
/// whose mode or size changed as changed. Where a checksum is to be
/// verified, nothing is reported yet and the content is asked for; where
/// the checksum's length fits no algorithm, the step says so and goes on to
/// the modification time, as it does where no checksum is to be verified.
pub fn verify(
    packagedb: &PackageDb,
    args: &CheckArgs,
    reports: &mut Report,
    idx: usize,
    stat: &StatOutcome,
) -> (step: VerifyStep)
    requires
        idx < packagedb.files_view().len(),
    ensures
        final(reports).patterns() == old(reports).patterns(),
        verify_allows(
            packagedb.packages_view(),
            packagedb.files_view()[idx as int],
            *args,
            *stat,
            old(reports).findings(),
            final(reports).findings(),
            step,
        ),
{
    let files = packagedb.files();
    let file = &files[idx];
    assert(file@ == packagedb.files_view()[idx as int]);
    match stat {
        StatOutcome::NotFound => {
            if args.missing {
                reports.add_missing(packagedb, file);
            }
            VerifyStep::Done
        },
        StatOutcome::Failed => VerifyStep::StatFailed,
        StatOutcome::Found(meta) => {
            if !args.changed {
                return VerifyStep::Done;
            }
            match attribute_change(file, meta) {
                Some(desc) => {
                    reports.add_change(packagedb, file, desc);
                    VerifyStep::Done
                },
                None => {
                    let mut step = VerifyStep::Done;
                    if args.checksum {
                        if let Some(chksum) = file.chksum() {
                            match Algorithm::for_length(chksum.len()) {
                                Ok(algorithm) => {
                                    return VerifyStep::NeedContent(algorithm);
                                },
                                Err(e) => {
                                    step = VerifyStep::DigestFailed(e);
                                },
                            }
                        }
                    }
                    report_change(packagedb, reports, file, mtime_change(file, meta));
                    step
                },
            }
        },
    }
}

/// Takes the second step for the tracked file at `idx`: verifies the
/// recorded checksum against the content, where the content could be had.
/// A mismatch is reported as a changed hash; else a later modification
/// time is reported, also where the checksum could not be verified.
pub fn verify_content(
    packagedb: &PackageDb,
    reports: &mut Report,
    idx: usize,
    meta: &LiveMeta,
    content: Option<&[u8]>,
) -> (outcome: DigestOutcome)
    requires
        idx < packagedb.files_view().len(),
    ensures
        outcome == content_outcome(
            packagedb.files_view()[idx as int],
            match content {
                Some(c) => Some(c@),
                None => None,
            },
        ),
        final(reports).findings() == with_finding(
            old(reports).findings(),
            change_finding(
                packagedb.packages_view(),
                packagedb.files_view()[idx as int],
                later_change_of(packagedb.files_view()[idx as int], *meta, true, outcome),
            ),
        ),
        final(reports).patterns() == old(reports).patterns(),
{
    let files = packagedb.files();
    let file = &files[idx];
    assert(file@ == packagedb.files_view()[idx as int]);
    let outcome = match (file.chksum(), content) {
        (Some(expected), Some(data)) => match crate::checksum::check_digest(
            expected.as_slice(),
            data,
        ) {
            Ok(true) => DigestOutcome::Match,
            Ok(false) => DigestOutcome::Mismatch,
            Err(_) => DigestOutcome::Failed,
        },
        _ => DigestOutcome::Failed,
    };
    if file.chksum().is_some() && outcome == DigestOutcome::Mismatch {
        reports.add_change(packagedb, file, String::from_str("Hash changed"));
    } else {
        report_change(packagedb, reports, file, mtime_change(file, meta));
    }
    outcome
}

} // verus!
