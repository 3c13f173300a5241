//! Errors of the decoder.

use vstd::prelude::*;

verus! {

/// Why a buffer could not be read.
#[derive(Clone, Copy, Debug, PartialEq, Eq, Structural)]
pub enum ExifError {
    /// The buffer does not begin with the start-of-image marker `FF D8`.
    MalformedJpeg,
    /// A length or an offset points past the end of the data.
    Truncated,
    /// A tag's value type is none of ASCII, SHORT and LONG.
    UnsupportedValueType,
}

} // verus!
