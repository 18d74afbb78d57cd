//! An installed package, as the package manager names it.

use crate::text::{lossy_text, path_text};
use vstd::prelude::*;
use vstd::string::StringExecFns;

verus! {

/// An installed package. Its names are the bytes that the package manager
/// printed; they are made into text where they are shown.
#[derive(Debug)]
pub struct Package {
    fullname: Vec<u8>,
    name: Vec<u8>,
    version: Vec<u8>,
    arch: Option<Vec<u8>>,
}

/// What a package holds, as plain values.
pub ghost struct PackageView {
    /// The name under which the package manager finds the package.
    pub fullname: Seq<u8>,
    /// The bare name.
    pub name: Seq<u8>,
    /// The version, with the release where there is one.
    pub version: Seq<u8>,
    /// The architecture.
    pub arch: Option<Seq<u8>>,
}

impl PackageView {
    /// The name, followed by a colon and the architecture where one is
    /// recorded.
    pub open spec fn name_arch(self) -> Seq<char> {
        match self.arch {
            Some(arch) => lossy_text(self.name) + seq![':'] + lossy_text(arch),
            None => lossy_text(self.name),
        }
    }

    /// The name, a hyphen and the version, followed by a colon and the
    /// architecture where one is recorded.
    pub open spec fn name_ver_arch(self) -> Seq<char> {
        match self.arch {
            Some(arch) => lossy_text(self.name) + seq!['-'] + lossy_text(self.version) + seq![':']
                + lossy_text(arch),
            None => lossy_text(self.name) + seq!['-'] + lossy_text(self.version),
        }
    }

    /// The architecture as text, or nothing where none is recorded.
    pub open spec fn arch_or_empty(self) -> Seq<char> {
        match self.arch {
            Some(arch) => lossy_text(arch),
            None => Seq::empty(),
        }
    }
}

impl View for Package {
    type V = PackageView;

    closed spec fn view(&self) -> PackageView {
        PackageView {
            fullname: self.fullname@,
            name: self.name@,
            version: self.version@,
            arch: match self.arch {
                Some(a) => Some(a@),
                None => None,
            },
        }
    }
}

/// The view of an architecture that may be missing.
pub open spec fn arch_view(arch: Option<Vec<u8>>) -> Option<Seq<u8>> {
    match arch {
        Some(a) => Some(a@),
        None => None,
    }
}

impl Package {
    /// Makes a package from its names.
    pub fn new(fullname: Vec<u8>, name: Vec<u8>, version: Vec<u8>, arch: Option<Vec<u8>>) -> (package:
        Self)
        ensures
            package@ == (PackageView {
                fullname: fullname@,
                name: name@,
                version: version@,
                arch: arch_view(arch),
            }),
    {
        Self { fullname, name, version, arch }
    }

    /// The name under which the package manager finds the package.
    pub fn fullname(&self) -> (name: &Vec<u8>)
        ensures
            name@ == self@.fullname,
    {
        &self.fullname
    }

    /// The full name as text.
    pub fn fullnamestr(&self) -> (s: String)
        ensures
            s@ == lossy_text(self@.fullname),
    {
        path_text(self.fullname.as_slice())
    }

    /// The bare name as text.
    pub fn namestr(&self) -> (s: String)
        ensures
            s@ == lossy_text(self@.name),
    {
        path_text(self.name.as_slice())
    }

    /// The version as text.
    pub fn versionstr(&self) -> (s: String)
        ensures
            s@ == lossy_text(self@.version),
    {
        path_text(self.version.as_slice())
    }

    /// The architecture as text; empty where none is recorded.
    pub fn archstr(&self) -> (s: String)
        ensures
            s@ == self@.arch_or_empty(),
    {
        match &self.arch {
            Some(arch) => path_text(arch.as_slice()),
            None => String::new(),
        }
    }

    /// The name and, where one is recorded, the architecture: `name:arch`.
    pub fn name_arch(&self) -> (s: String)
        ensures
            s@ == self@.name_arch(),
    {
        let mut s = path_text(self.name.as_slice());
        match &self.arch {
            Some(arch) => {
                proof {
                    reveal_strlit(":");
                }
                assert(":"@ =~= seq![':']);
                s.append(":");
                s.append(path_text(arch.as_slice()).as_str());
            },
            None => {},
        }
        s
    }

    /// The name, the version and, where one is recorded, the architecture:
    /// `name-version:arch`.
    pub fn name_ver_arch(&self) -> (s: String)
        ensures
            s@ == self@.name_ver_arch(),
    {
        proof {
            reveal_strlit(":");
            reveal_strlit("-");
        }
        assert(":"@ =~= seq![':']);
        assert("-"@ =~= seq!['-']);
        let mut s = path_text(self.name.as_slice());
        s.append("-");
        s.append(path_text(self.version.as_slice()).as_str());
        match &self.arch {
            Some(arch) => {
                s.append(":");
                s.append(path_text(arch.as_slice()).as_str());
            },
            None => {},
        }
        s
    }
}

} // verus!
