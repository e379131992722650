//! The library's error type.
use vstd::prelude::*;

use crate::export::ExportError;

verus! {

/// An error of the library.
pub enum Error {
    /// Error exporting mesh.
    Export(ExportError),
}

impl From<ExportError> for Error {
    fn from(e: ExportError) -> (r: Error) {
        Error::Export(e)
    }
}

impl vstd::std_specs::convert::FromSpecImpl<ExportError> for Error {
    open spec fn obeys_from_spec() -> bool {
        true
    }

    open spec fn from_spec(e: ExportError) -> Error {
        Error::Export(e)
    }
}

} // verus!
