//! File system paths. A `PathBuf` is carried through as an opaque value; the
//! few path operations the library needs are the standard library's, and
//! what they return depends on the platform's separator or on the disk, so
//! nothing is claimed of their results.

use vstd::prelude::*;
use std::path::PathBuf;

verus! {

#[verifier::external_type_specification]
#[verifier::external_body]
pub struct ExPathBuf(std::path::PathBuf);

/// `PathBuf::from` on a `String`: the path that the text names.
#[verifier::external_body]
pub(crate) fn path_of(text: String) -> PathBuf {
    PathBuf::from(text)
}

/// `Path::join`: `dir` with `file` appended. The separator that is put in
/// between is the platform's, so the result is not described here.
#[verifier::external_body]
pub(crate) fn join_path(dir: &PathBuf, file: &str) -> PathBuf {
    dir.join(file)
}

/// `Path::exists`: whether something is on disk at `path`. That depends on
/// the disk at the time of the call, so nothing is claimed of the answer.
#[verifier::external_body]
pub(crate) fn path_exists(path: &PathBuf) -> bool {
    path.exists()
}

} // verus!
