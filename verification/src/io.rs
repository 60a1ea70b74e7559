//! I/O error kinds.
//!
//! Block devices and the driver report failures through a small set of
//! error kinds. Errors bubble to the caller unchanged; the driver never
//! retries.

use vstd::prelude::*;

verus! {

/// An I/O failure reported by a block device or by the driver itself.
#[derive(PartialEq, Eq, Structural, Debug, Copy, Clone)]
pub enum Error {
    /// The device timed out.
    TimedOut,
    /// A sector number was out of range, a buffer was too small, or a seek
    /// target fell outside the file.
    InvalidInput,
    /// The device returned fewer bytes than requested.
    UnexpectedEof,
    /// A directory entry or path component does not exist.
    NotFound,
    /// The operation is not implemented for this read-only driver.
    Unimplemented,
    /// Any other failure.
    Other,
}

/// The error kinds a block device read or write may report; higher
/// layers reserve `NotFound` and `Unimplemented` for their own meanings.
pub open spec fn device_error(e: Error) -> bool {
    e == Error::TimedOut || e == Error::InvalidInput || e == Error::UnexpectedEof || e
        == Error::Other
}

} // verus!
