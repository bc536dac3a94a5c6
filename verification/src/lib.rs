//! Assembling a distributable package archive from a project's source tree:
//! choosing and ordering the archive entries, validating file names, judging
//! version-control dirtiness, diffing dependency resolutions and directory
//! fingerprints, and serialising the archive.

pub mod archive;
pub mod descriptor;
pub mod entries;
pub mod filename;
pub mod fingerprint;
pub mod metadata;
pub mod options;
pub mod order;
pub mod paths;
pub mod pipeline;
pub mod ranked_set;
pub mod report;
pub mod resolve;
pub mod text;
pub mod vcs;
pub mod verification;
