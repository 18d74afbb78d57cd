//! The package managers that the auditor can read.

use crate::ignore::texts_of;
use crate::packagedb::PackageDb;
use vstd::prelude::*;
use vstd::string::StringExecFns;

verus! {

/// A package manager.
#[derive(Clone, Copy, Debug, PartialEq, Eq, Structural)]
pub enum PackageMgr {
    /// The RPM package manager.
    Rpm,
    /// The Debian package manager.
    Apt,
}

/// Why no package manager could be picked.
#[derive(Clone, Copy, Debug, PartialEq, Eq, Structural)]
pub enum DetectError {
    /// More than one package manager is available, and none was named.
    Ambiguous,
    /// No package manager that the auditor can read is available.
    Unavailable,
}

impl DetectError {
    /// The text of the error.
    pub open spec fn message_of(self) -> Seq<char> {
        match self {
            DetectError::Ambiguous => "No package manager specified"@,
            DetectError::Unavailable => "No supported package managers available"@,
        }
    }

    /// Writes the error as text.
    pub fn message(&self) -> (text: String)
        ensures
            text@ == self.message_of(),
    {
        match self {
            DetectError::Ambiguous => String::from_str("No package manager specified"),
            DetectError::Unavailable => String::from_str("No supported package managers available"),
        }
    }
}

/// The package manager that is picked where none is named: the one that
/// is available, if it is the only one.
pub open spec fn detected(rpm_available: bool, apt_available: bool) -> Result<
    PackageMgr,
    DetectError,
> {
    if rpm_available && apt_available {
        Err(DetectError::Ambiguous)
    } else if rpm_available {
        Ok(PackageMgr::Rpm)
    } else if apt_available {
        Ok(PackageMgr::Apt)
    } else {
        Err(DetectError::Unavailable)
    }
}

/// The ignore patterns that come with a package manager: its own database,
/// and for RPM the manual pages.
pub open spec fn default_patterns(mgr: PackageMgr) -> Seq<Seq<char>> {
    match mgr {
        PackageMgr::Rpm => seq!["^/usr/share/man($|/.*)"@, "^/var/lib/rpm($|/.*)"@],
        PackageMgr::Apt => seq!["^/var/lib/apt($|/.*)"@, "^/var/lib/dpkg($|/.*)"@],
    }
}

/// Lists the ignore patterns that come with a package manager.
pub fn default_ignores(mgr: PackageMgr) -> (patterns: Vec<String>)
    ensures
        texts_of(patterns@) == default_patterns(mgr),
{
    let mut patterns: Vec<String> = Vec::new();
    match mgr {
        PackageMgr::Rpm => {
            patterns.push(String::from_str("^/usr/share/man($|/.*)"));
            patterns.push(String::from_str("^/var/lib/rpm($|/.*)"));
        },
        PackageMgr::Apt => {
            patterns.push(String::from_str("^/var/lib/apt($|/.*)"));
            patterns.push(String::from_str("^/var/lib/dpkg($|/.*)"));
        },
    }
    assert(texts_of(patterns@) =~= default_patterns(mgr));
    patterns
}

impl PackageDb {
    /// Picks the package manager where none is named, given which ones are
    /// available: the only one that is. Two of them are an error, and so
    /// is none.
    pub fn detect_mgr(rpm_available: bool, apt_available: bool) -> (mgr: Result<
        PackageMgr,
        DetectError,
    >)
        ensures
            mgr == detected(rpm_available, apt_available),
    {
        if rpm_available {
            if apt_available {
                return Err(DetectError::Ambiguous);
            }
            Ok(PackageMgr::Rpm)
        } else if apt_available {
            Ok(PackageMgr::Apt)
        } else {
            Err(DetectError::Unavailable)
        }
    }
}

} // verus!
