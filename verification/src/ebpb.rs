//! The BIOS parameter block.
//!
//! The first sector of a FAT32 partition holds the filesystem's geometry:
//! the logical sector size, sectors per cluster, the reserved region in
//! front of the FATs, the number of FAT copies, the 32-bit sectors-per-FAT
//! override, and the root directory's first cluster. The sector ends with
//! the signature `0xAA55` at offsets 510 and 511. The legacy 16-bit
//! sectors-per-FAT and total-sector fields are ignored for FAT32; the
//! 32-bit overrides are used instead. The extended signature fields are
//! informational and not validated.

use vstd::prelude::*;

use crate::device::BlockDevice;
use crate::encoding::{le16_at, le32_at, spec_le16, spec_le32, spec_sector_read, zeroed};
use crate::error::Error;
use crate::io;

verus! {

/// The decoded FAT32 geometry of one partition.
#[derive(PartialEq, Eq, Structural, Debug, Copy, Clone)]
pub struct BiosParameterBlock {
    /// The size of a logical sector in bytes.
    pub bytes_per_sector: u16,
    /// The number of logical sectors in a cluster.
    pub sectors_per_cluster: u8,
    /// The number of logical sectors before the first FAT.
    pub reserved_sectors: u16,
    /// The number of FAT copies.
    pub fats: u8,
    /// The 32-bit total-logical-sectors override.
    pub total_logical_sectors_ovf: u32,
    /// The 32-bit sectors-per-FAT override.
    pub sectors_per_fat_ovf: u32,
    /// The first cluster of the root directory.
    pub root_cluster: u32,
}

/// The geometry packed in a BPB sector `s`.
pub open spec fn spec_bpb(s: Seq<u8>) -> BiosParameterBlock {
    BiosParameterBlock {
        bytes_per_sector: spec_le16(s, 11),
        sectors_per_cluster: s[13],
        reserved_sectors: spec_le16(s, 14),
        fats: s[16],
        total_logical_sectors_ovf: spec_le32(s, 32),
        sectors_per_fat_ovf: spec_le32(s, 36),
        root_cluster: spec_le32(s, 44),
    }
}

/// Whether the BPB signature bytes at offsets 510 and 511 hold the
/// little-endian value 0xAA55.
pub open spec fn spec_bpb_signature_ok(s: Seq<u8>) -> bool {
    spec_le16(s, 510) == 0xAA55
}

/// The 512 bytes the BPB is decoded from: the front of the given physical
/// sector, zero-padded when the device's sectors are shorter.
pub open spec fn spec_bpb_bytes<T: BlockDevice>(device: T, sector: u64) -> Seq<u8> {
    spec_sector_read(device.spec_sectors()[sector as int], device.spec_sector_size(), 512)
}

impl BiosParameterBlock {
    /// Reads and decodes the FAT32 extended BIOS parameter block from
    /// sector `sector` of `device`.
    ///
    /// Returns `BadSignature` if the signature is invalid, and `Io(err)`
    /// if the device read failed.
    pub fn from<T: BlockDevice>(device: &mut T, sector: u64) -> (r: Result<
        BiosParameterBlock,
        Error,
    >)
        requires
            old(device).wf(),
        ensures
            final(device).wf(),
            final(device).spec_sectors() == old(device).spec_sectors(),
            final(device).spec_sector_size() == old(device).spec_sector_size(),
            match r {
                Ok(bpb) => ({
                    let b = spec_bpb_bytes(*old(device), sector);
                    &&& sector < old(device).spec_sectors().len()
                    &&& spec_bpb_signature_ok(b)
                    &&& bpb == spec_bpb(b)
                }),
                Err(Error::BadSignature) => ({
                    let b = spec_bpb_bytes(*old(device), sector);
                    &&& sector < old(device).spec_sectors().len()
                    &&& !spec_bpb_signature_ok(b)
                }),
                Err(Error::Io(e)) => io::device_error(e),
                Err(_) => false,
            },
    {
        let mut buf = zeroed(512);
        let res = {
            let s = buf.as_mut_slice();
            device.read_sector(sector, s)
        };
        match res {
            Ok(_) => {},
            Err(e) => {
                return Err(Error::Io(e));
            },
        }
        let ghost b = spec_bpb_bytes(*old(device), sector);
        proof {
            assert(buf@ =~= b);
        }
        if le16_at(buf.as_slice(), 510) != 0xAA55 {
            return Err(Error::BadSignature);
        }
        let bpb = BiosParameterBlock {
            bytes_per_sector: le16_at(buf.as_slice(), 11),
            sectors_per_cluster: buf[13],
            reserved_sectors: le16_at(buf.as_slice(), 14),
            fats: buf[16],
            total_logical_sectors_ovf: le32_at(buf.as_slice(), 32),
            sectors_per_fat_ovf: le32_at(buf.as_slice(), 36),
            root_cluster: le32_at(buf.as_slice(), 44),
        };
        Ok(bpb)
    }

    /// The number of sectors per FAT: the FAT32 32-bit override.
    pub fn sectors_per_fat(&self) -> (r: u32)
        ensures
            r == self.sectors_per_fat_ovf,
    {
        self.sectors_per_fat_ovf
    }

    /// The total number of logical sectors: the 32-bit override.
    pub fn total_logical_sectors(&self) -> (r: u64)
        ensures
            r == self.total_logical_sectors_ovf as u64,
    {
        self.total_logical_sectors_ovf as u64
    }
}

} // verus!
