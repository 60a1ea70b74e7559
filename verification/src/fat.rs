//! FAT table entries.
//!
//! The file allocation table is an array of 32-bit little-endian entries,
//! one per cluster. The top 4 bits of each entry are reserved; the low 28
//! bits classify the cluster as free, reserved, bad, a link to the next
//! cluster of a chain, or the end of a chain.

use vstd::prelude::*;

use crate::cluster::Cluster;

verus! {

/// The meaning of a FAT entry's low 28 bits.
#[derive(PartialEq, Eq, Structural, Debug, Copy, Clone)]
pub enum Status {
    /// The entry corresponds to an unused (free) cluster.
    Free,
    /// The entry or its cluster is reserved.
    Reserved,
    /// The cluster is part of a chain; the next cluster is given.
    Data(Cluster),
    /// The cluster is marked bad (disk failure).
    Bad,
    /// The cluster is the last of its chain.
    Eoc(u32),
}

/// A raw 32-bit FAT table entry.
#[derive(PartialEq, Eq, Structural, Debug, Copy, Clone)]
pub struct FatEntry(pub u32);

/// The status encoded by a raw 32-bit FAT entry: the top four bits are
/// masked away, and the remaining 28-bit value is classified.
pub open spec fn spec_status(raw: u32) -> Status {
    let masked = raw & 0x0FFF_FFFF;
    if masked == 0 {
        Status::Free
    } else if masked == 1 {
        Status::Reserved
    } else if masked <= 0x0FFF_FFEF {
        Status::Data(Cluster(masked))
    } else if masked <= 0x0FFF_FFF6 {
        Status::Reserved
    } else if masked == 0x0FFF_FFF7 {
        Status::Bad
    } else {
        Status::Eoc(masked)
    }
}

impl FatEntry {
    /// Classifies this FAT entry.
    pub fn status(&self) -> (s: Status)
        ensures
            s == spec_status(self.0),
    {
        let masked: u32 = self.0 & 0x0FFF_FFFF;
        proof {
            assert(masked == self.0 & 0x0FFF_FFFF);
        }
        if masked == 0 {
            Status::Free
        } else if masked == 1 {
            Status::Reserved
        } else if masked <= 0x0FFF_FFEF {
            Status::Data(Cluster(masked))
        } else if masked <= 0x0FFF_FFF6 {
            Status::Reserved
        } else if masked == 0x0FFF_FFF7 {
            Status::Bad
        } else {
            Status::Eoc(masked)
        }
    }
}

} // verus!
