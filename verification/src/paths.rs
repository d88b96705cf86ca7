//! Questions to the file system about paths.
use vstd::prelude::*;

verus! {

/// `Path::exists`: whether something is at the path. What it answers depends on
/// the disk, so nothing is stated of it.
#[verifier::external_body]
pub(crate) fn path_exists(path: &str) -> bool {
    std::path::Path::new(path).exists()
}

/// `Path::is_dir`: whether a directory is at the path. What it answers depends on
/// the disk, so nothing is stated of it.
#[verifier::external_body]
pub(crate) fn path_is_dir(path: &str) -> bool {
    std::path::Path::new(path).is_dir()
}

} // verus!
