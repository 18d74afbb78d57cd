//! What one run is asked to do.

use crate::ignore::{accepted, global_patterns, refused, texts_of, IgnoreMatcher};
use crate::packagedb::PackageDb;
use crate::report::{Finding, Report};
use vstd::prelude::*;

verus! {

/// The choices for one run.
pub struct CheckArgs {
    /// Report tracked files whose attributes changed.
    pub changed: bool,
    /// Report tracked files that are not on disk.
    pub missing: bool,
    /// Report files on disk that no package tracks.
    pub new: bool,
    /// Verify the recorded checksums against the files' content.
    pub checksum: bool,
    /// The user's ignore patterns.
    pub ignores: Vec<String>,
    /// How much to tell on the diagnostic stream.
    pub debug: u8,
}

impl CheckArgs {
    /// Whether the tracked files are to be looked at on disk.
    pub open spec fn verifies_spec(&self) -> bool {
        self.changed || self.missing
    }

    /// Tells whether the tracked files are to be looked at on disk: they
    /// are unless neither changed nor missing files are to be reported.
    #[verifier::when_used_as_spec(verifies_spec)]
    pub fn verifies(&self) -> (wanted: bool)
        ensures
            wanted == self.verifies_spec(),
    {
        self.changed || self.missing
    }
}

/// Starts a run: compiles the patterns that are always active, those of the
/// store and the user's into the matcher of an empty report. The patterns
/// that could not be compiled are handed back.
pub fn check(packagedb: &PackageDb, args: &CheckArgs) -> (started: (Report, Vec<String>))
    ensures
        started.0.findings() == Seq::<Finding>::empty(),
        started.0.patterns() == accepted(
            global_patterns() + packagedb.ignores_view() + texts_of(args.ignores@),
        ),
        texts_of(started.1@) == refused(
            global_patterns() + packagedb.ignores_view() + texts_of(args.ignores@),
        ),
{
    let (matcher, rejected) = IgnoreMatcher::build(packagedb.ignores(), &args.ignores);
    (Report::new(matcher), rejected)
}

} // verus!
