//! Cluster numbers.
//!
//! A FAT32 cluster number occupies the low 28 bits of a 32-bit on-disk
//! field; the top 4 bits are reserved and masked away on read. Clusters 0
//! and 1 are not addressable: the first usable data cluster is number 2.

use vstd::prelude::*;

verus! {

/// A 28-bit cluster number.
#[derive(PartialEq, Eq, Structural, Debug, Copy, Clone)]
pub struct Cluster(pub u32);

impl Cluster {
    /// The 28-bit value stored for a raw 32-bit FAT field: the top four
    /// bits are reserved and ignored.
    pub open spec fn spec_of_raw(raw: u32) -> u32 {
        raw & 0x0FFF_FFFF
    }

    /// The sector offset of a cluster inside the data region: clusters are
    /// numbered from 2, and the unaddressable numbers 0 and 1 saturate to 0.
    pub open spec fn spec_offset(self) -> u64 {
        if self.0 >= 2 {
            (self.0 - 2) as u64
        } else {
            0
        }
    }

    /// Masks a raw 32-bit FAT field down to its 28-bit cluster number.
    pub fn from(raw_num: u32) -> (c: Cluster)
        ensures
            c.0 == Cluster::spec_of_raw(raw_num),
            c.0 <= 0x0FFF_FFFF,
    {
        proof {
            assert(raw_num & 0x0FFF_FFFF <= 0x0FFF_FFFF) by (bit_vector);
        }
        Cluster(raw_num & 0x0FFF_FFFF)
    }

    /// The cluster's index within the data region, counted from cluster 2.
    pub fn get_offset(&self) -> (off: u64)
        ensures
            off == self.spec_offset(),
    {
        if self.0 >= 2 {
            (self.0 - 2) as u64
        } else {
            0
        }
    }

    /// The stored 28-bit cluster number.
    pub fn get(&self) -> (n: u32)
        ensures
            n == self.0,
    {
        self.0
    }

    /// The stored 28-bit cluster number, for use in contracts.
    pub open spec fn spec_get(self) -> u32 {
        self.0
    }
}

} // verus!
