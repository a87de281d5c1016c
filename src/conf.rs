//! The capability that a derivation provides for an annotated type.
use vstd::prelude::*;

use std::path::PathBuf;

verus! {

/// `std::path::PathBuf`, carried through the capability's signatures unopened.
#[verifier::external_type_specification]
#[verifier::external_body]
pub struct ExPathBuf(PathBuf);

/// Relies on `PathBuf`'s `From<&str>`: it makes an owned path of a string
/// slice and never fails.
#[verifier::external_body]
fn path_of(path: &str) -> PathBuf {
    PathBuf::from(path)
}

/// Loading from and saving to an inline serialized form or a path.
pub trait SimpleConf {
    /// A new instance parsed from its inline serialized form.
    fn from_serialized(serialized: &str) -> Self where Self: Sized;

    /// A new instance read from the configuration stored at `path`.
    fn from_path(path: &PathBuf) -> Self where Self: Sized;

    /// [`SimpleConf::from_path`] on a path given as a string.
    fn from_path_str(path: &str) -> Self where Self: Sized {
        Self::from_path(&path_of(path))
    }

    /// The inline serialized form of this instance.
    fn to_serialized(&self) -> &str;

    /// Stores this instance at `path`.
    fn to_path(&self, path: &PathBuf);

    /// [`SimpleConf::to_path`] on a path given as a string.
    fn to_path_str(&self, path: &str) {
        self.to_path(&path_of(path));
    }
}

} // verus!
