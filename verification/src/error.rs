//! The one error of this crate: a rule's derived glob text was not valid
//! glob syntax. The engine's diagnostic is carried along untouched.

use vstd::prelude::*;

verus! {

/// Raised when a rule's derived glob text fails to compile; wraps the glob
/// engine's diagnostic, which carries the offending text.
#[derive(Debug)]
pub enum Error {
    Glob(globset::Error),
}

impl From<globset::Error> for Error {
    fn from(value: globset::Error) -> (r: Error) {
        Error::Glob(value)
    }
}

impl vstd::std_specs::convert::FromSpecImpl<globset::Error> for Error {
    open spec fn obeys_from_spec() -> bool {
        true
    }

    open spec fn from_spec(t: globset::Error) -> Error {
        Error::Glob(t)
    }
}

} // verus!
