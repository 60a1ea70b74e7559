//! The master boot record.
//!
//! Physical sector 0 of the disk holds 436 bytes of bootstrap code, a
//! 10-byte disk ID, four 16-byte partition entries at offset 446, and the
//! signature bytes `0x55 0xAA` at offsets 510 and 511. Each partition
//! entry packs a boot indicator, two CHS addresses, a partition type, and
//! the partition's position in little-endian sectors.

use vstd::prelude::*;

use crate::device::BlockDevice;
use crate::encoding::{le32_at, spec_le32, spec_sector_read, zeroed};
use crate::io;

verus! {

/// A packed cylinder-head-sector address.
#[derive(PartialEq, Eq, Structural, Debug, Copy, Clone)]
pub struct CHS {
    pub head: u8,
    pub sector_plus_two_bits_of_cylinder: u8,
    pub the_rest_of_cylinder: u8,
}

/// The CHS address packed at byte offset `off` of `s`.
pub open spec fn spec_chs(s: Seq<u8>, off: int) -> CHS {
    CHS {
        head: s[off],
        sector_plus_two_bits_of_cylinder: s[off + 1],
        the_rest_of_cylinder: s[off + 2],
    }
}

/// One of the four entries of the MBR partition table.
#[derive(PartialEq, Eq, Structural, Debug, Copy, Clone)]
pub struct PartitionEntry {
    pub boot_indicator: u8,
    pub starting_chs: CHS,
    pub partition_type: u8,
    pub ending_chs: CHS,
    pub relative_sector: u32,
    pub total_sectors: u32,
}

/// The partition entry packed at byte offset `off` of `s`.
pub open spec fn spec_partition_entry(s: Seq<u8>, off: int) -> PartitionEntry {
    PartitionEntry {
        boot_indicator: s[off],
        starting_chs: spec_chs(s, off + 1),
        partition_type: s[off + 4],
        ending_chs: spec_chs(s, off + 5),
        relative_sector: spec_le32(s, off + 8),
        total_sectors: spec_le32(s, off + 12),
    }
}

impl PartitionEntry {
    /// Whether the entry's type marks a FAT32 partition.
    pub open spec fn spec_is_fat32(self) -> bool {
        self.partition_type == 0x0B || self.partition_type == 0x0C
    }

    /// Whether this entry describes a FAT32 partition (type 0x0B or 0x0C).
    pub fn is_fat32(&self) -> (r: bool)
        ensures
            r == self.spec_is_fat32(),
    {
        self.partition_type == 0x0B || self.partition_type == 0x0C
    }
}

/// The master boot record: the four-entry partition table of sector 0.
#[derive(Debug, Copy, Clone)]
pub struct MasterBootRecord {
    pub partition_table: [PartitionEntry; 4],
}

/// Why reading or decoding the MBR failed.
#[derive(PartialEq, Eq, Structural, Debug, Copy, Clone)]
pub enum Error {
    /// There was an I/O error while reading the MBR.
    Io(io::Error),
    /// The boot indicator of the given partition (0-indexed) is invalid.
    UnknownBootIndicator(u8),
    /// The MBR magic signature was invalid.
    BadSignature,
}

/// Whether the MBR signature bytes hold `0x55 0xAA`.
pub open spec fn spec_mbr_signature_ok(s: Seq<u8>) -> bool {
    s[510] == 0x55 && s[511] == 0xAA
}

/// Whether partition entry `i`'s boot indicator is 0x00 or 0x80.
pub open spec fn spec_boot_indicator_ok(s: Seq<u8>, i: int) -> bool {
    s[446 + 16 * i] == 0 || s[446 + 16 * i] == 0x80
}

/// The 512 bytes the MBR is decoded from: the front of physical sector 0,
/// zero-padded when the device's sectors are shorter.
pub open spec fn spec_mbr_bytes<T: BlockDevice>(device: T) -> Seq<u8> {
    spec_sector_read(device.spec_sectors()[0], device.spec_sector_size(), 512)
}

impl MasterBootRecord {
    /// Reads and decodes the master boot record from sector 0 of `device`.
    ///
    /// Returns `BadSignature` if the signature bytes are wrong,
    /// `UnknownBootIndicator(n)` if partition `n` has a boot indicator
    /// other than 0x00 or 0x80, and `Io(err)` if the device read failed.
    pub fn from<T: BlockDevice>(device: &mut T) -> (r: Result<MasterBootRecord, Error>)
        requires
            old(device).wf(),
        ensures
            final(device).wf(),
            final(device).spec_sectors() == old(device).spec_sectors(),
            final(device).spec_sector_size() == old(device).spec_sector_size(),
            match r {
                Ok(mbr) => ({
                    let b = spec_mbr_bytes(*old(device));
                    &&& 0 < old(device).spec_sectors().len()
                    &&& spec_mbr_signature_ok(b)
                    &&& forall|i: int| 0 <= i < 4 ==> spec_boot_indicator_ok(b, i)
                    &&& forall|i: int|
                        0 <= i < 4 ==> mbr.partition_table@[i] == spec_partition_entry(
                            b,
                            446 + 16 * i,
                        )
                }),
                Err(Error::BadSignature) => ({
                    let b = spec_mbr_bytes(*old(device));
                    &&& 0 < old(device).spec_sectors().len()
                    &&& !spec_mbr_signature_ok(b)
                }),
                Err(Error::UnknownBootIndicator(i)) => ({
                    let b = spec_mbr_bytes(*old(device));
                    &&& 0 < old(device).spec_sectors().len()
                    &&& spec_mbr_signature_ok(b)
                    &&& i < 4
                    &&& !spec_boot_indicator_ok(b, i as int)
                    &&& forall|j: int| 0 <= j < i ==> spec_boot_indicator_ok(b, j)
                }),
                Err(Error::Io(e)) => io::device_error(e),
            },
    {
        let mut buf = zeroed(512);
        let res = {
            let s = buf.as_mut_slice();
            device.read_sector(0, s)
        };
        match res {
            Ok(_) => {},
            Err(e) => {
                return Err(Error::Io(e));
            },
        }
        let ghost b = spec_mbr_bytes(*old(device));
        proof {
            assert(buf@ =~= b);
        }
        if !(buf[510] == 0x55 && buf[511] == 0xAA) {
            return Err(Error::BadSignature);
        }
        let e0 = decode_entry(&buf, 446);
        let e1 = decode_entry(&buf, 462);
        let e2 = decode_entry(&buf, 478);
        let e3 = decode_entry(&buf, 494);
        if !(e0.boot_indicator == 0 || e0.boot_indicator == 0x80) {
            return Err(Error::UnknownBootIndicator(0));
        }
        if !(e1.boot_indicator == 0 || e1.boot_indicator == 0x80) {
            return Err(Error::UnknownBootIndicator(1));
        }
        if !(e2.boot_indicator == 0 || e2.boot_indicator == 0x80) {
            return Err(Error::UnknownBootIndicator(2));
        }
        if !(e3.boot_indicator == 0 || e3.boot_indicator == 0x80) {
            return Err(Error::UnknownBootIndicator(3));
        }
        let mbr = MasterBootRecord { partition_table: [e0, e1, e2, e3] };
        Ok(mbr)
    }
}

/// Decodes the 16-byte partition entry at byte offset `off` of `b`.
fn decode_entry(b: &Vec<u8>, off: usize) -> (e: PartitionEntry)
    requires
        off + 16 <= b@.len(),
        b@.len() <= usize::MAX,
    ensures
        e == spec_partition_entry(b@, off as int),
{
    PartitionEntry {
        boot_indicator: b[off],
        starting_chs: CHS {
            head: b[off + 1],
            sector_plus_two_bits_of_cylinder: b[off + 2],
            the_rest_of_cylinder: b[off + 3],
        },
        partition_type: b[off + 4],
        ending_chs: CHS {
            head: b[off + 5],
            sector_plus_two_bits_of_cylinder: b[off + 6],
            the_rest_of_cylinder: b[off + 7],
        },
        relative_sector: le32_at(b.as_slice(), off + 8),
        total_sectors: le32_at(b.as_slice(), off + 12),
    }
}

} // verus!
