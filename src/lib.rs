//! Reading and patching the EXIF block of a JPEG file, and putting it back
//! into a re-encoded JPEG stream.

pub mod bytes;
pub mod error;
pub mod segment;
pub mod ifd;
pub mod tags;
pub mod naming;
pub mod rotation;
pub mod laws;
