//! What the caller asks of packaging.

use vstd::prelude::*;

verus! {

/// The options of one packaging.
#[derive(Debug)]
pub struct PackageOpts {
    /// Whether notices for verbose output are wanted.
    pub verbose: bool,
    /// Only list the entries of the archive; write nothing.
    pub list: bool,
    /// Warn where the manifest lacks what readers look for.
    pub check_metadata: bool,
    /// Package even where files differ from what version control holds.
    pub allow_dirty: bool,
    /// Build the written archive to see that it works.
    pub verify: bool,
    /// How many jobs the verification build may run at once.
    pub jobs: Option<u32>,
    /// The targets to build for.
    pub targets: Vec<String>,
    /// The features to build with.
    pub features: Vec<String>,
    pub all_features: bool,
    pub no_default_features: bool,
}

} // verus!
