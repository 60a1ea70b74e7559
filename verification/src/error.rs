//! The driver's error type.

use vstd::prelude::*;

use crate::io;

verus! {

/// Why mounting or reading the filesystem failed.
#[derive(PartialEq, Eq, Structural, Debug, Copy, Clone)]
pub enum Error {
    /// An I/O error from the block device.
    Io(io::Error),
    /// The MBR or BPB magic signature was invalid.
    BadSignature,
    /// An MBR partition entry (0-indexed) has an invalid boot indicator.
    UnknownBootIndicator(u8),
    /// No FAT32 partition was found.
    NotFound,
}

impl Error {
    /// Lifts an MBR decoding error into the driver's error type.
    pub fn from_mbr(e: crate::mbr::Error) -> (r: Error)
        ensures
            r == Error::spec_from_mbr(e),
    {
        match e {
            crate::mbr::Error::Io(io_err) => Error::Io(io_err),
            crate::mbr::Error::UnknownBootIndicator(i) => Error::UnknownBootIndicator(i),
            crate::mbr::Error::BadSignature => Error::BadSignature,
        }
    }

    /// The driver error an MBR error maps to.
    pub open spec fn spec_from_mbr(e: crate::mbr::Error) -> Error {
        match e {
            crate::mbr::Error::Io(io_err) => Error::Io(io_err),
            crate::mbr::Error::UnknownBootIndicator(i) => Error::UnknownBootIndicator(i),
            crate::mbr::Error::BadSignature => Error::BadSignature,
        }
    }
}

} // verus!
