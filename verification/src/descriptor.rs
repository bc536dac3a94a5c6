//! The package being published, as packaging reads it.

use crate::paths::FilePath;
use vstd::prelude::*;

verus! {

/// Where a dependency comes from.
#[derive(Clone, Copy, Debug, PartialEq, Eq, Structural)]
pub enum SourceKind {
    /// A registry of published packages.
    Registry,
    /// A directory of the local file system.
    Path,
    /// A version-control repository.
    Git,
}

/// One dependency of the package.
#[derive(Debug)]
pub struct Dependency {
    /// The name under which the manifest declares it.
    pub name: String,
    pub kind: SourceKind,
    /// The version requirement, where the manifest states one.
    pub requirement: Option<String>,
    /// Whether those who depend on the package need it too.
    pub transitive: bool,
}

/// What the manifest says about the package for human readers.
#[derive(Debug)]
pub struct Metadata {
    pub description: Option<String>,
    pub license: Option<String>,
    pub license_file: Option<String>,
    pub documentation: Option<String>,
    pub homepage: Option<String>,
    pub repository: Option<String>,
}

/// The package being published. Packaging only reads it.
#[derive(Debug)]
pub struct PackageDescriptor {
    pub name: String,
    pub version: String,
    /// The directory of the package.
    pub root: FilePath,
    /// The manifest of the package.
    pub manifest_path: FilePath,
    pub dependencies: Vec<Dependency>,
    pub metadata: Metadata,
    /// The patterns that select the files to package.
    pub include_patterns: Vec<String>,
    /// The patterns that keep files out of the package.
    pub exclude_patterns: Vec<String>,
    /// Whether a lock document is bundled with the sources.
    pub include_lockfile: bool,
}

/// The name of a manifest file.
pub open spec fn manifest_name() -> Seq<char> {
    "Cargo.toml"@
}

/// The name of a lock document.
pub open spec fn lock_name() -> Seq<char> {
    "Cargo.lock"@
}

/// The name kept for the version-control record.
pub open spec fn vcs_info_name() -> Seq<char> {
    ".cargo_vcs_info.json"@
}

impl PackageDescriptor {
    /// The name of the directory under which the archive holds its entries.
    pub open spec fn base_name(&self) -> Seq<char> {
        self.name@ + "-"@ + self.version@
    }

    /// The file name of the archive.
    pub open spec fn archive_name(&self) -> Seq<char> {
        self.base_name() + ".crate"@
    }

    /// The name under which the archive is written before it is checked: a
    /// hidden file beside the place of the archive.
    pub open spec fn temporary_name(&self) -> Seq<char> {
        "."@ + self.archive_name()
    }

    /// Writes the temporary name of the archive.
    pub fn temporary_name_text(&self) -> (r: String)
        ensures
            r@ == self.temporary_name(),
    {
        let mut out: String = String::from_str(".");
        out.append(self.archive_name_text().as_str());
        out
    }

    /// Writes the name of the archive's top-level directory.
    pub fn base_name_text(&self) -> (r: String)
        ensures
            r@ == self.base_name(),
    {
        let mut out: String = self.name.clone();
        out.append("-");
        out.append(self.version.as_str());
        out
    }

    /// Writes the file name of the archive.
    pub fn archive_name_text(&self) -> (r: String)
        ensures
            r@ == self.archive_name(),
    {
        let mut out: String = self.base_name_text();
        out.append(".crate");
        out
    }
}

} // verus!
