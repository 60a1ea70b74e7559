//! The mounted FAT32 filesystem.
//!
//! [`VFat`] holds the geometry decoded from the BIOS parameter block and
//! a [`CachedPartition`] onto the FAT32 partition that the master boot
//! record names. Its ghost model is the sequence of logical sectors the
//! partition presents; the FAT, the clusters and the cluster chains are
//! all spec functions of those sectors, and every read is pinned to them.

use vstd::prelude::*;

use crate::cache::{CachedPartition, Partition};
use crate::cluster::Cluster;
use crate::device::BlockDevice;
use crate::ebpb::{spec_bpb, spec_bpb_bytes, spec_bpb_signature_ok, BiosParameterBlock};
use crate::encoding::{le32_at, spec_le32};
use crate::error::Error;
use crate::fat::{spec_status, FatEntry, Status};
use crate::io;
use crate::mbr::{
    spec_boot_indicator_ok, spec_mbr_bytes, spec_mbr_signature_ok, spec_partition_entry,
    MasterBootRecord,
};
use crate::dir::{first_match, Dir};
use crate::entry::{entry_view, DirEntryInfo, Entry};
use crate::metadata::{Attributes, Date, Metadata, Time, Timestamp};
use vstd::string::StrSliceExecFns;

verus! {

/// A mounted FAT32 filesystem over a block device.
pub struct VFat<T: BlockDevice> {
    device: CachedPartition<T>,
    bytes_per_sector: u16,
    sectors_per_cluster: u8,
    sectors_per_fat: u32,
    fat_start_sector: u64,
    data_start_sector: u64,
    rootdir_cluster: Cluster,
}

/// The index of the first MBR partition entry marked FAT32, if any.
pub open spec fn spec_fat_partition_index(b: Seq<u8>) -> Option<int> {
    if spec_partition_entry(b, 446).spec_is_fat32() {
        Option::Some(0)
    } else if spec_partition_entry(b, 462).spec_is_fat32() {
        Option::Some(1)
    } else if spec_partition_entry(b, 478).spec_is_fat32() {
        Option::Some(2)
    } else if spec_partition_entry(b, 494).spec_is_fat32() {
        Option::Some(3)
    } else {
        Option::None
    }
}

/// Whether two filesystem values present the same geometry and the same
/// logical sectors. Every driver operation preserves this view: reads
/// only fill the cache.
pub open spec fn same_fs<T: BlockDevice>(a: VFat<T>, b: VFat<T>) -> bool {
    &&& a.spec_bps() == b.spec_bps()
    &&& a.spec_spc() == b.spec_spc()
    &&& a.spec_fat_start() == b.spec_fat_start()
    &&& a.spec_data_start() == b.spec_data_start()
    &&& a.spec_root() == b.spec_root()
    &&& a.spec_num_sectors() == b.spec_num_sectors()
    &&& forall|v: u64| a.spec_sector(v) == b.spec_sector(v)
}

impl<T: BlockDevice> VFat<T> {
    /// The logical sector size in bytes.
    pub closed spec fn spec_bps(self) -> u16 {
        self.bytes_per_sector
    }

    /// The number of sectors in a cluster.
    pub closed spec fn spec_spc(self) -> u8 {
        self.sectors_per_cluster
    }

    /// The partition-relative sector of the first FAT.
    pub closed spec fn spec_fat_start(self) -> u64 {
        self.fat_start_sector
    }

    /// The partition-relative sector where the data region begins.
    pub closed spec fn spec_data_start(self) -> u64 {
        self.data_start_sector
    }

    /// The first cluster of the root directory.
    pub closed spec fn spec_root(self) -> Cluster {
        self.rootdir_cluster
    }

    /// The number of logical sectors of the partition.
    pub closed spec fn spec_num_sectors(self) -> u64 {
        self.device.spec_partition().1
    }

    /// The current bytes of logical sector `v`.
    pub closed spec fn spec_sector(self, v: u64) -> Seq<u8> {
        self.device.sector_contents(v)
    }

    /// Well-formedness: the cached partition is sound, its logical sector
    /// size is the BPB's, and the geometry is small enough that sector
    /// arithmetic cannot overflow.
    pub closed spec fn wf(self) -> bool {
        &&& self.device.wf()
        &&& self.device.spec_partition().2 == self.bytes_per_sector as u64
        &&& self.bytes_per_sector >= 4
        &&& self.fat_start_sector <= 0xFFFF
        &&& self.data_start_sector <= 0xFFFFu64 + 0xFFu64 * 0xFFFF_FFFFu64
        &&& self.rootdir_cluster.0 <= 0x0FFF_FFFF
    }

    /// The partition-relative sector where cluster `c`'s data begins.
    pub open spec fn cluster_first_sector(self, c: u32) -> u64 {
        (self.spec_data_start() + Cluster(c).spec_offset() * self.spec_spc()) as u64
    }

    /// The bytes of `count` consecutive logical sectors beginning at
    /// `start`.
    pub open spec fn spec_sectors_from(self, start: u64, count: nat) -> Seq<u8>
        decreases count,
    {
        if count == 0 {
            Seq::empty()
        } else {
            self.spec_sector(start) + self.spec_sectors_from(
                (start + 1) as u64,
                (count - 1) as nat,
            )
        }
    }

    /// The bytes of cluster `c`: its sectors, concatenated.
    pub open spec fn cluster_bytes(self, c: u32) -> Seq<u8> {
        self.spec_sectors_from(self.cluster_first_sector(c), self.spec_spc() as nat)
    }

    /// The raw 32-bit FAT entry of cluster `c`, read little-endian from
    /// its slot of the first FAT.
    pub open spec fn fat_entry_raw(self, c: u32) -> u32 {
        let eps = (self.spec_bps() / 4) as u32;
        let sector = (self.spec_fat_start() + (c / eps) as u64) as u64;
        spec_le32(self.spec_sector(sector), 4 * (c % eps) as int)
    }

    /// The status of cluster `c`'s FAT entry.
    pub open spec fn fat_status(self, c: u32) -> Status {
        spec_status(self.fat_entry_raw(c))
    }

    /// Whether each cluster of `cs` links to the next through the FAT.
    pub open spec fn links(self, cs: Seq<u32>) -> bool {
        forall|i: int|
            0 <= i < cs.len() - 1 ==> #[trigger] self.fat_status(cs[i]) == Status::Data(
                Cluster(cs[i + 1]),
            )
    }

    /// Whether `cs` is a complete cluster chain: nonempty, linked through
    /// the FAT, and ending at an end-of-chain entry.
    pub open spec fn is_chain(self, cs: Seq<u32>) -> bool {
        &&& cs.len() > 0
        &&& self.links(cs)
        &&& self.fat_status(cs[cs.len() - 1]) is Eoc
    }

    /// The bytes of a sequence of clusters, concatenated in order.
    pub open spec fn chain_bytes(self, cs: Seq<u32>) -> Seq<u8>
        decreases cs.len(),
    {
        if cs.len() == 0 {
            Seq::empty()
        } else {
            self.cluster_bytes(cs[0]) + self.chain_bytes(cs.skip(1))
        }
    }
}

/// Sector runs are equal on filesystems that present the same sectors.
proof fn lemma_sectors_from_same<T: BlockDevice>(a: VFat<T>, b: VFat<T>, start: u64, count: nat)
    requires
        same_fs(a, b),
    ensures
        a.spec_sectors_from(start, count) == b.spec_sectors_from(start, count),
    decreases count,
{
    if count > 0 {
        lemma_sectors_from_same(a, b, (start + 1) as u64, (count - 1) as nat);
    }
}

/// The FAT, the clusters and the chains are functions of the geometry
/// and the sectors alone: two filesystem values with the same view agree
/// on all of them.
pub proof fn lemma_same_fs_model<T: BlockDevice>(a: VFat<T>, b: VFat<T>)
    requires
        same_fs(a, b),
    ensures
        forall|c: u32| #[trigger] a.fat_entry_raw(c) == b.fat_entry_raw(c),
        forall|c: u32| #[trigger] a.fat_status(c) == b.fat_status(c),
        forall|c: u32| #[trigger] a.cluster_bytes(c) == b.cluster_bytes(c),
{
    assert forall|c: u32| #[trigger] a.cluster_bytes(c) == b.cluster_bytes(c) by {
        lemma_sectors_from_same(a, b, a.cluster_first_sector(c), a.spec_spc() as nat);
    }
}

/// Chain facts carry across filesystem values with the same view.
pub proof fn lemma_same_fs_chain<T: BlockDevice>(a: VFat<T>, b: VFat<T>, cs: Seq<u32>)
    requires
        same_fs(a, b),
    ensures
        a.links(cs) == b.links(cs),
        a.is_chain(cs) == b.is_chain(cs),
        a.chain_bytes(cs) == b.chain_bytes(cs),
    decreases cs.len(),
{
    lemma_same_fs_model(a, b);
    if cs.len() > 0 {
        lemma_same_fs_chain(a, b, cs.skip(1));
    }
    assert(a.links(cs) == b.links(cs)) by {
        if a.links(cs) {
            assert forall|i: int|
                0 <= i < cs.len() - 1 implies #[trigger] b.fat_status(cs[i]) == Status::Data(
                Cluster(cs[i + 1]),
            ) by {
                assert(a.fat_status(cs[i]) == Status::Data(Cluster(cs[i + 1])));
            }
        }
        if b.links(cs) {
            assert forall|i: int|
                0 <= i < cs.len() - 1 implies #[trigger] a.fat_status(cs[i]) == Status::Data(
                Cluster(cs[i + 1]),
            ) by {
                assert(b.fat_status(cs[i]) == Status::Data(Cluster(cs[i + 1])));
            }
        }
    }
}

/// Reading one more sector appends its bytes.
proof fn lemma_sectors_from_snoc<T: BlockDevice>(fs: VFat<T>, start: u64, count: nat)
    requires
        start + count + 1 <= u64::MAX,
    ensures
        fs.spec_sectors_from(start, (count + 1) as nat) == fs.spec_sectors_from(start, count)
            + fs.spec_sector((start + count) as u64),
    decreases count,
{
    if count == 0 {
        assert(fs.spec_sectors_from((start + 1) as u64, 0) =~= Seq::<u8>::empty());
        assert(fs.spec_sectors_from(start, 0) =~= Seq::<u8>::empty());
        assert(fs.spec_sectors_from(start, 1) =~= fs.spec_sectors_from(start, 0)
            + fs.spec_sector(start));
    } else {
        lemma_sectors_from_snoc(fs, (start + 1) as u64, (count - 1) as nat);
        assert(fs.spec_sectors_from(start, (count + 1) as nat) =~= fs.spec_sectors_from(
            start,
            count,
        ) + fs.spec_sector((start + count) as u64));
    }
}

/// Appending one more cluster appends its bytes.
proof fn lemma_chain_bytes_snoc<T: BlockDevice>(fs: VFat<T>, cs: Seq<u32>, c: u32)
    ensures
        fs.chain_bytes(cs.push(c)) == fs.chain_bytes(cs) + fs.cluster_bytes(c),
    decreases cs.len(),
{
    if cs.len() == 0 {
        assert(cs.push(c).skip(1) =~= Seq::<u32>::empty());
        assert(cs.push(c)[0] == c);
        assert(fs.chain_bytes(Seq::<u32>::empty()) =~= Seq::<u8>::empty());
        assert(fs.chain_bytes(cs.push(c)) == fs.cluster_bytes(c) + fs.chain_bytes(
            Seq::<u32>::empty(),
        ));
        assert(fs.chain_bytes(cs.push(c)) =~= fs.chain_bytes(cs) + fs.cluster_bytes(c));
    } else {
        assert(cs.push(c).skip(1) =~= cs.skip(1).push(c));
        lemma_chain_bytes_snoc(fs, cs.skip(1), c);
        assert(cs.push(c)[0] == cs[0]);
        assert(fs.chain_bytes(cs.push(c)) == fs.cluster_bytes(cs[0]) + fs.chain_bytes(
            cs.skip(1).push(c),
        ));
        assert(fs.chain_bytes(cs) == fs.cluster_bytes(cs[0]) + fs.chain_bytes(cs.skip(1)));
        assert(fs.cluster_bytes(cs[0]) + (fs.chain_bytes(cs.skip(1)) + fs.cluster_bytes(c)) =~= (
        fs.cluster_bytes(cs[0]) + fs.chain_bytes(cs.skip(1))) + fs.cluster_bytes(c));
        assert(fs.chain_bytes(cs.push(c)) =~= fs.chain_bytes(cs) + fs.cluster_bytes(c));
    }
}

/// A chain's tail is a chain.
proof fn lemma_chain_tail<T: BlockDevice>(fs: VFat<T>, cs: Seq<u32>)
    requires
        fs.is_chain(cs),
        cs.len() > 1,
    ensures
        fs.is_chain(cs.skip(1)),
{
    let t = cs.skip(1);
    assert forall|i: int|
        0 <= i < t.len() - 1 implies #[trigger] fs.fat_status(t[i]) == Status::Data(
        Cluster(t[i + 1]),
    ) by {
        assert(t[i] == cs[i + 1]);
        assert(t[i + 1] == cs[i + 2]);
        assert(fs.fat_status(cs[i + 1]) == Status::Data(Cluster(cs[i + 2])));
    }
    assert(t[t.len() - 1] == cs[cs.len() - 1]);
}

/// The FAT is a function: from any start cluster there is at most one
/// chain, since each link determines the next cluster and the chain ends
/// exactly at the end-of-chain entry.
pub proof fn lemma_chain_unique<T: BlockDevice>(fs: VFat<T>, a: Seq<u32>, b: Seq<u32>)
    requires
        fs.is_chain(a),
        fs.is_chain(b),
        a[0] == b[0],
    ensures
        a == b,
    decreases a.len(),
{
    if a.len() == 1 {
        assert(fs.fat_status(a[0]) is Eoc);
        if b.len() > 1 {
            assert(fs.fat_status(b[0]) == Status::Data(Cluster(b[1])));
            assert(false);
        }
        assert(b.len() == 1);
        assert(a =~= b);
    } else {
        if b.len() == 1 {
            assert(fs.fat_status(b[0]) is Eoc);
            assert(fs.fat_status(a[0]) == Status::Data(Cluster(a[1])));
            assert(false);
        }
        assert(fs.fat_status(a[0]) == Status::Data(Cluster(a[1])));
        assert(fs.fat_status(b[0]) == Status::Data(Cluster(b[1])));
        assert(a[1] == b[1]);
        lemma_chain_tail(fs, a);
        lemma_chain_tail(fs, b);
        lemma_chain_unique(fs, a.skip(1), b.skip(1));
        assert(a.len() == b.len());
        assert forall|i: int| 0 <= i < a.len() implies a[i] == b[i] by {
            if i > 0 {
                assert(a[i] == a.skip(1)[i - 1]);
                assert(b[i] == b.skip(1)[i - 1]);
            }
        }
        assert(a =~= b);
    }
}

/// A cluster whose FAT entry is bad, free or reserved cannot lie on a
/// chain: every link of a chain is a `Data` entry and only its last
/// cluster's entry — an `Eoc` — ends it. With `read_chain`'s contract
/// this means a walk that meets such an entry cannot return success.
pub proof fn lemma_no_chain_through_bad<T: BlockDevice>(fs: VFat<T>, cs: Seq<u32>, i: int)
    requires
        0 <= i < cs.len(),
        !(fs.fat_status(cs[i]) is Data),
        !(fs.fat_status(cs[i]) is Eoc),
    ensures
        !fs.is_chain(cs),
{
    if fs.is_chain(cs) {
        if i < cs.len() - 1 {
            assert(fs.fat_status(cs[i]) == Status::Data(Cluster(cs[i + 1])));
        } else {
            assert(fs.fat_status(cs[i]) is Eoc);
        }
    }
}

impl<T: BlockDevice> VFat<T> {
    /// Mounts the first FAT32 partition of `device`.
    ///
    /// Reads the master boot record, selects the first partition entry of
    /// type 0x0B or 0x0C, decodes the BIOS parameter block at its first
    /// sector, and wraps the partition in a sector cache. Returns
    /// `NotFound` when no entry is FAT32, `BadSignature` when the MBR or
    /// the BPB signature is wrong, `Io` when a device read fails or when
    /// the BPB declares a logical sector size that is zero, smaller than
    /// the device's sectors, not a multiple of them, or too small to hold
    /// a FAT entry.
    pub fn from(device: T) -> (r: Result<VFat<T>, Error>)
        requires
            device.wf(),
        ensures
            match r {
                Ok(fs) => ({
                    let mb = spec_mbr_bytes(device);
                    let pi = spec_fat_partition_index(mb);
                    let pe = spec_partition_entry(mb, 446 + 16 * pi.unwrap());
                    let bb = spec_bpb_bytes(device, pe.relative_sector as u64);
                    let bpb = spec_bpb(bb);
                    &&& fs.wf()
                    &&& pi is Some
                    &&& spec_bpb_signature_ok(bb)
                    &&& fs.spec_bps() == bpb.bytes_per_sector
                    &&& fs.spec_spc() == bpb.sectors_per_cluster
                    &&& fs.spec_fat_start() == bpb.reserved_sectors as u64
                    &&& fs.spec_data_start() == bpb.reserved_sectors as u64 + bpb.fats as u64
                        * bpb.sectors_per_fat_ovf as u64
                    &&& fs.spec_root() == Cluster(bpb.root_cluster & 0x0FFF_FFFF)
                    &&& fs.spec_num_sectors() == bpb.total_logical_sectors_ovf as u64
                    &&& forall|v: u64|
                        #[trigger] fs.spec_sector(v) == crate::cache::concat_sectors(
                            device.spec_sectors(),
                            pe.relative_sector + v * (bpb.bytes_per_sector as u64
                                / device.spec_sector_size()),
                            (bpb.bytes_per_sector as u64 / device.spec_sector_size()) as nat,
                        )
                }),
                Err(Error::NotFound) => ({
                    let mb = spec_mbr_bytes(device);
                    &&& spec_mbr_signature_ok(mb)
                    &&& forall|j: int| 0 <= j < 4 ==> spec_boot_indicator_ok(mb, j)
                    &&& spec_fat_partition_index(mb) is None
                }),
                Err(Error::BadSignature) => ({
                    let mb = spec_mbr_bytes(device);
                    let pi = spec_fat_partition_index(mb);
                    !spec_mbr_signature_ok(mb) || (pi is Some && !spec_bpb_signature_ok(
                        spec_bpb_bytes(
                            device,
                            spec_partition_entry(
                                mb,
                                446 + 16 * pi.unwrap(),
                            ).relative_sector as u64,
                        ),
                    ))
                }),
                Err(Error::UnknownBootIndicator(i)) => ({
                    let mb = spec_mbr_bytes(device);
                    &&& spec_mbr_signature_ok(mb)
                    &&& i < 4
                    &&& !spec_boot_indicator_ok(mb, i as int)
                    &&& forall|j: int| 0 <= j < i ==> spec_boot_indicator_ok(mb, j)
                }),
                Err(Error::Io(e)) => io::device_error(e),
            },
    {
        let mut device = device;
        let mbr = match MasterBootRecord::from(&mut device) {
            Ok(m) => m,
            Err(e) => {
                return Err(Error::from_mbr(e));
            },
        };
        let fat_part = if mbr.partition_table[0].is_fat32() {
            mbr.partition_table[0]
        } else if mbr.partition_table[1].is_fat32() {
            mbr.partition_table[1]
        } else if mbr.partition_table[2].is_fat32() {
            mbr.partition_table[2]
        } else if mbr.partition_table[3].is_fat32() {
            mbr.partition_table[3]
        } else {
            return Err(Error::NotFound);
        };
        let ebpb_sector = fat_part.relative_sector as u64;
        let ebpb = match BiosParameterBlock::from(&mut device, ebpb_sector) {
            Ok(b) => b,
            Err(e) => {
                return Err(e);
            },
        };
        let dev_size = device.sector_size();
        let bps = ebpb.bytes_per_sector as u64;
        if bps < 4 || bps < dev_size || bps % dev_size != 0 {
            return Err(Error::Io(io::Error::InvalidInput));
        }
        let fat_sector = ebpb.reserved_sectors as u64;
        proof {
            assert(ebpb.fats as u64 * ebpb.sectors_per_fat_ovf as u64 <= 0xFFu64
                * 0xFFFF_FFFFu64) by (nonlinear_arith)
                requires
                    ebpb.fats <= 0xFFu8,
                    ebpb.sectors_per_fat_ovf <= 0xFFFF_FFFFu32,
            ;
        }
        let data_sector = fat_sector + (ebpb.fats as u64 * ebpb.sectors_per_fat() as u64);
        let num_sectors = ebpb.total_logical_sectors();
        proof {
            let f = bps / device.spec_sector_size();
            assert(f <= bps) by {
                vstd::arithmetic::div_mod::lemma_div_is_ordered_by_denominator(
                    bps as int,
                    1,
                    device.spec_sector_size() as int,
                );
                vstd::arithmetic::div_mod::lemma_div_basics(bps as int);
            }
            vstd::arithmetic::mul::lemma_mul_inequality(
                num_sectors as int,
                0xFFFF_FFFF,
                f as int,
            );
            vstd::arithmetic::mul::lemma_mul_inequality(f as int, 0xFFFF, 0xFFFF_FFFF);
            vstd::arithmetic::mul::lemma_mul_is_commutative(num_sectors as int, f as int);
            vstd::arithmetic::mul::lemma_mul_is_commutative(0xFFFF_FFFF, f as int);
        }
        let cached_part = CachedPartition::new(
            device,
            Partition { start: ebpb_sector, num_sectors, sector_size: bps },
        );
        Ok(
            VFat {
                device: cached_part,
                bytes_per_sector: ebpb.bytes_per_sector,
                sectors_per_cluster: ebpb.sectors_per_cluster,
                sectors_per_fat: ebpb.sectors_per_fat(),
                fat_start_sector: fat_sector,
                data_start_sector: data_sector,
                rootdir_cluster: Cluster::from(ebpb.root_cluster),
            },
        )
    }

    /// The first cluster of the root directory.
    pub fn root_cluster(&self) -> (c: Cluster)
        ensures
            c == self.spec_root(),
    {
        self.rootdir_cluster
    }

    /// The logical sector size in bytes.
    pub fn bytes_per_sector(&self) -> (b: u16)
        ensures
            b == self.spec_bps(),
    {
        self.bytes_per_sector
    }

    /// The number of sectors in a cluster.
    pub fn sectors_per_cluster(&self) -> (s: u8)
        ensures
            s == self.spec_spc(),
    {
        self.sectors_per_cluster
    }

    /// Reads the FAT entry of `cluster` from the first FAT.
    fn fat_entry(&mut self, cluster: Cluster) -> (r: Result<FatEntry, io::Error>)
        requires
            old(self).wf(),
        ensures
            final(self).wf(),
            same_fs(*final(self), *old(self)),
            match r {
                Ok(fe) => fe.0 == old(self).fat_entry_raw(cluster.0),
                Err(e) => io::device_error(e),
            },
    {
        let entries_per_sector = (self.bytes_per_sector / 4) as u32;
        let cluster_start = cluster.get();
        let fat_entry_sec = (cluster_start / entries_per_sector) as u64;
        let sec_entry = cluster_start % entries_per_sector;
        let sec = self.fat_start_sector + fat_entry_sec;
        let data = match self.device.get(sec) {
            Ok(d) => d,
            Err(e) => {
                return Err(e);
            },
        };
        proof {
            vstd::arithmetic::div_mod::lemma_mod_bound(
                cluster_start as int,
                entries_per_sector as int,
            );
            vstd::arithmetic::mul::lemma_mul_inequality(
                sec_entry as int + 1,
                entries_per_sector as int,
                4,
            );
            vstd::arithmetic::mul::lemma_mul_is_commutative(sec_entry as int + 1, 4);
            vstd::arithmetic::mul::lemma_mul_is_commutative(entries_per_sector as int, 4);
            vstd::arithmetic::mul::lemma_mul_is_distributive_add_other_way(
                4,
                sec_entry as int,
                1,
            );
            vstd::arithmetic::div_mod::lemma_fundamental_div_mod(
                self.bytes_per_sector as int,
                4,
            );
        }
        let raw = le32_at(data.as_slice(), (sec_entry as usize) * 4);
        Ok(FatEntry(raw))
    }

    /// Appends the bytes of one cluster — all of its sectors, in order —
    /// to `buf`.
    fn append_cluster(&mut self, cluster: Cluster, buf: &mut Vec<u8>) -> (r: Result<
        (),
        io::Error,
    >)
        requires
            old(self).wf(),
        ensures
            final(self).wf(),
            same_fs(*final(self), *old(self)),
            match r {
                Ok(_) => final(buf)@ == old(buf)@ + old(self).cluster_bytes(cluster.0)
                    && final(buf)@.len() == old(buf)@.len() + old(self).spec_spc() as int * old(
                    self,
                ).spec_bps() as int,
                Err(e) => io::device_error(e),
            },
    {
        let spc = self.sectors_per_cluster as u64;
        let offset = cluster.get_offset();
        proof {
            assert(offset <= 0xFFFF_FFFFu64);
            assert(offset * spc <= 0xFFFF_FFFFu64 * 0xFFu64) by (nonlinear_arith)
                requires
                    offset <= 0xFFFF_FFFFu64,
                    spc <= 0xFFu64,
            ;
        }
        let first = self.data_start_sector + offset * spc;
        let ghost fs0 = *self;
        let ghost buf0 = buf@;
        let mut s: u64 = 0;
        while s < spc
            invariant
                self.wf(),
                same_fs(*self, fs0),
                fs0 == *old(self),
                fs0.wf(),
                s <= spc,
                spc == fs0.spec_spc() as u64,
                first == fs0.cluster_first_sector(cluster.0),
                first + spc <= u64::MAX,
                buf@ == buf0 + fs0.spec_sectors_from(first, s as nat),
                buf@.len() == buf0.len() + s * fs0.spec_bps() as int,
            decreases spc - s,
        {
            let mut data = match self.device.get(first + s) {
                Ok(d) => d,
                Err(e) => {
                    return Err(e);
                },
            };
            proof {
                lemma_sectors_from_snoc(fs0, first, s as nat);
                assert((s + 1) * fs0.spec_bps() as int == s * fs0.spec_bps() as int
                    + fs0.spec_bps() as int) by (nonlinear_arith);
                assert(self.device.sector_contents((first + s) as u64) == fs0.spec_sector(
                    (first + s) as u64,
                ));
            }
            buf.append(&mut data);
            proof {
                assert(buf@ =~= buf0 + fs0.spec_sectors_from(first, (s + 1) as nat));
            }
            s += 1;
        }
        Ok(())
    }

    /// Reads the whole cluster chain that begins at `start` into `buf`.
    ///
    /// One cluster's worth of bytes is appended per chain link until the
    /// end-of-chain entry; a free, reserved or bad entry in the middle of
    /// the chain is an error. On success the bytes read are exactly the
    /// chain's clusters, concatenated, and the total is returned.
    pub fn read_chain(&mut self, start: Cluster, buf: &mut Vec<u8>) -> (r: Result<
        usize,
        io::Error,
    >)
        requires
            old(self).wf(),
            old(buf)@.len() == 0,
        ensures
            final(self).wf(),
            same_fs(*final(self), *old(self)),
            match r {
                Ok(n) => exists|cs: Seq<u32>|
                    {
                        &&& #[trigger] old(self).is_chain(cs)
                        &&& cs[0] == start.0
                        &&& final(buf)@ == old(self).chain_bytes(cs)
                        &&& n == final(buf)@.len()
                        &&& n == cs.len() * (old(self).spec_spc() as int * old(
                            self,
                        ).spec_bps() as int)
                    },
                Err(e) => io::device_error(e),
            },
    {
        let ghost fs0 = *old(self);
        let mut cluster = start;
        let ghost mut cs: Seq<u32> = Seq::empty();
        proof {
            assert(buf@ =~= fs0.chain_bytes(cs) + Seq::<u8>::empty());
            assert(buf@ =~= fs0.chain_bytes(cs));
            assert(0 * (fs0.spec_spc() as int * fs0.spec_bps() as int) == 0) by (nonlinear_arith);
        }
        let cap: u64 = 0x1000_0000;
        let mut steps: u64 = 0;
        while steps <= cap
            invariant
                self.wf(),
                same_fs(*self, fs0),
                fs0 == *old(self),
                fs0.wf(),
                cap == 0x1000_0000u64,
                steps <= cap + 1,
                cs.len() == 0 ==> cluster == start,
                cs.len() > 0 ==> cs[0] == start.0,
                cs.len() > 0 ==> fs0.fat_status(cs[cs.len() - 1]) == Status::Data(cluster),
                fs0.links(cs),
                buf@ == fs0.chain_bytes(cs),
                buf@.len() == cs.len() * (fs0.spec_spc() as int * fs0.spec_bps() as int),
            decreases cap + 1 - steps,
        {
            let ghost pre = *self;
            match self.append_cluster(cluster, buf) {
                Ok(_) => {},
                Err(e) => {
                    return Err(e);
                },
            }
            proof {
                lemma_same_fs_model(pre, fs0);
                lemma_chain_bytes_snoc(fs0, cs, cluster.0);
                assert((cs.len() + 1) * (fs0.spec_spc() as int * fs0.spec_bps() as int) == cs.len()
                    * (fs0.spec_spc() as int * fs0.spec_bps() as int) + (fs0.spec_spc() as int
                    * fs0.spec_bps() as int)) by (nonlinear_arith);
                let full = cs.push(cluster.0);
                assert(full[0] == if cs.len() == 0 {
                    cluster.0
                } else {
                    cs[0]
                });
                assert forall|i: int|
                    0 <= i < full.len() - 1 implies #[trigger] fs0.fat_status(full[i])
                    == Status::Data(Cluster(full[i + 1])) by {
                    if i < cs.len() - 1 {
                        assert(fs0.fat_status(cs[i]) == Status::Data(Cluster(cs[i + 1])));
                    }
                }
                cs = full;
            }
            let entry = match self.fat_entry(cluster) {
                Ok(fe) => fe,
                Err(e) => {
                    return Err(e);
                },
            };
            proof {
                lemma_same_fs_model(*self, fs0);
            }
            match entry.status() {
                Status::Data(next) => {
                    cluster = next;
                },
                Status::Eoc(_) => {
                    let n = buf.len();
                    proof {
                        lemma_same_fs_chain(*self, fs0, cs);
                        assert(fs0.is_chain(cs) && cs[0] == start.0 && buf@ == fs0.chain_bytes(cs)
                            && n == buf@.len() && n == cs.len() * (fs0.spec_spc() as int
                            * fs0.spec_bps() as int));
                    }
                    return Ok(n);
                },
                _ => {
                    return Err(io::Error::Other);
                },
            }
            steps += 1;
        }
        Err(io::Error::Other)
    }

    /// Reads sectors of cluster `cluster`, beginning `sector_offset`
    /// sectors into it, into the front of `buf`. Whole sectors are read:
    /// as many as fit in `buf`, at most the cluster's. The number of
    /// bytes read is returned.
    pub fn read_cluster(&mut self, cluster: Cluster, sector_offset: u64, buf: &mut [u8]) -> (r:
        Result<usize, io::Error>)
        requires
            old(self).wf(),
        ensures
            final(self).wf(),
            same_fs(*final(self), *old(self)),
            final(buf)@.len() == old(buf)@.len(),
            match r {
                Ok(n) => ({
                    let spc = old(self).spec_spc() as u64;
                    let bps = old(self).spec_bps() as u64;
                    let nsec = if spc < old(buf)@.len() as u64 / bps {
                        spc
                    } else {
                        old(buf)@.len() as u64 / bps
                    };
                    let count = if sector_offset < nsec {
                        (nsec - sector_offset) as int
                    } else {
                        0
                    };
                    &&& n == count * bps
                    &&& final(buf)@ == old(self).spec_sectors_from(
                        (old(self).cluster_first_sector(cluster.0) + sector_offset) as u64,
                        count as nat,
                    ) + old(buf)@.skip(n as int)
                }),
                Err(e) => io::device_error(e),
            },
    {
        let spc = self.sectors_per_cluster as u64;
        let bps = self.bytes_per_sector as u64;
        let offset = cluster.get_offset();
        proof {
            assert(offset <= 0xFFFF_FFFFu64);
            assert(offset * spc <= 0xFFFF_FFFFu64 * 0xFFu64) by (nonlinear_arith)
                requires
                    offset <= 0xFFFF_FFFFu64,
                    spc <= 0xFFu64,
            ;
        }
        let cluster_start = self.data_start_sector + offset * spc;
        let max_sectors_in_buf = buf.len() as u64 / bps;
        let nsec = if spc < max_sectors_in_buf {
            spc
        } else {
            max_sectors_in_buf
        };
        if sector_offset >= nsec {
            return Ok(0);
        }
        let count = nsec - sector_offset;
        let first = cluster_start + sector_offset;
        let blen = buf.len();
        let ghost fs0 = *self;
        proof {
            vstd::arithmetic::div_mod::lemma_fundamental_div_mod(blen as int, bps as int);
            vstd::arithmetic::div_mod::lemma_mod_bound(blen as int, bps as int);
            assert((count as int) * (bps as int) <= blen) by (nonlinear_arith)
                requires
                    count <= nsec,
                    nsec <= max_sectors_in_buf,
                    (bps as int) * (max_sectors_in_buf as int) <= blen,
            ;
        }
        let mut read: usize = 0;
        let mut s: u64 = 0;
        while s < count
            invariant
                self.wf(),
                same_fs(*self, fs0),
                fs0 == *old(self),
                fs0.wf(),
                s <= count,
                bps == fs0.spec_bps() as u64,
                bps >= 1,
                first + count <= u64::MAX,
                count * bps <= blen,
                blen == buf@.len(),
                read == s * bps,
                buf@.len() == old(buf)@.len(),
                forall|j: int|
                    read <= j < buf@.len() ==> #[trigger] buf@[j] == old(buf)@[j],
                buf@.take(read as int) =~= fs0.spec_sectors_from(first, s as nat),
            decreases count - s,
        {
            proof {
                assert((s + 1) * bps as int == s * bps as int + bps) by (nonlinear_arith);
                vstd::arithmetic::mul::lemma_mul_inequality(s as int + 1, count as int, bps as int);
            }
            let data = match self.device.get(first + s) {
                Ok(d) => d,
                Err(e) => {
                    return Err(e);
                },
            };
            proof {
                assert(data@ == fs0.spec_sector((first + s) as u64));
            }
            let base = read;
            let dlen = data.len();
            let ghost bufs = buf@;
            proof {
                assert(forall|k: int| base <= k < bufs.len() ==> #[trigger] bufs[k] == old(
                    buf,
                )@[k]);
            }
            let mut j: usize = 0;
            while j < dlen
                invariant
                    j <= dlen,
                    dlen == data@.len(),
                    base + dlen <= blen,
                    blen == buf@.len(),
                    buf@.len() == bufs.len(),
                    forall|k: int| 0 <= k < base ==> buf@[k] == bufs[k],
                    forall|k: int| base <= k < base + j ==> buf@[k] == data@[k - base],
                    forall|k: int| base + j <= k < buf@.len() ==> buf@[k] == bufs[k],
                decreases dlen - j,
            {
                buf[base + j] = data[j];
                j += 1;
            }
            read = base + j;
            proof {
                lemma_sectors_from_snoc(fs0, first, s as nat);
                assert(buf@.take(read as int) =~= bufs.take(base as int) + data@);
                assert(buf@.take(read as int) =~= fs0.spec_sectors_from(first, (s + 1) as nat));
                assert forall|k: int| read <= k < buf@.len() implies buf@[k] == old(buf)@[k] by {
                    assert(buf@[k] == bufs[k]);
                    assert(bufs[k] == old(buf)@[k]);
                }
            }
            s += 1;
        }
        proof {
            assert(buf@ =~= buf@.take(read as int) + old(buf)@.skip(read as int));
        }
        Ok(read)
    }
}


/// Whether a path component takes part in resolution: the empty
/// component, `.` and `..` are ignored.
pub open spec fn keep_component(c: Seq<char>) -> bool {
    c.len() > 0 && c != seq!['.'] && c != seq!['.', '.']
}

/// The path components of `p` from index `i` on, with `cur` the partial
/// component accumulated since the last separator.
pub open spec fn split_acc(p: Seq<char>, i: int, cur: Seq<char>) -> Seq<Seq<char>>
    decreases p.len() - i,
{
    if i < 0 || i >= p.len() {
        if keep_component(cur) {
            seq![cur]
        } else {
            Seq::empty()
        }
    } else if p[i] == '/' {
        if keep_component(cur) {
            seq![cur] + split_acc(p, i + 1, Seq::empty())
        } else {
            split_acc(p, i + 1, Seq::empty())
        }
    } else {
        split_acc(p, i + 1, cur.push(p[i]))
    }
}

/// The components of a path: the separator-delimited pieces, without
/// empty ones, `.` and `..`.
pub open spec fn path_components(p: Seq<char>) -> Seq<Seq<char>> {
    split_acc(p, 0, Seq::empty())
}

/// The entry resolution begins with: the root directory, named `/`,
/// starting at the root cluster, with default metadata.
pub open spec fn root_info<T: BlockDevice>(fs: VFat<T>) -> DirEntryInfo {
    DirEntryInfo {
        name: seq!['/'],
        cluster: fs.spec_root().0,
        size: 0,
        is_dir: true,
        metadata: Metadata {
            attr: Attributes(0),
            ctime: Timestamp { date: Date(0), time: Time(0) },
            atime: Timestamp { date: Date(0), time: Time(0) },
            mtime: Timestamp { date: Date(0), time: Time(0) },
        },
    }
}

/// Whether `e` is the first entry named `name` — compared without
/// regard to ASCII case — of the directory whose data is the cluster
/// chain from `dir_cluster`.
pub open spec fn dir_lookup<T: BlockDevice>(
    fs: VFat<T>,
    dir_cluster: u32,
    name: Seq<char>,
    e: DirEntryInfo,
) -> bool {
    exists|cs: Seq<u32>|
        {
            &&& #[trigger] fs.is_chain(cs)
            &&& cs[0] == dir_cluster
            &&& first_match(fs.chain_bytes(cs), name, e)
        }
}

/// A directory lookup is a function of the filesystem: the chain from
/// the start cluster is unique, and so is the first matching entry.
proof fn lemma_dir_lookup_unique<T: BlockDevice>(
    fs: VFat<T>,
    c: u32,
    q: Seq<char>,
    e1: DirEntryInfo,
    e2: DirEntryInfo,
)
    requires
        dir_lookup(fs, c, q, e1),
        dir_lookup(fs, c, q, e2),
    ensures
        e1 == e2,
{
    let cs1 = choose|cs: Seq<u32>|
        {
            &&& #[trigger] fs.is_chain(cs)
            &&& cs[0] == c
            &&& first_match(fs.chain_bytes(cs), q, e1)
        };
    let cs2 = choose|cs: Seq<u32>|
        {
            &&& #[trigger] fs.is_chain(cs)
            &&& cs[0] == c
            &&& first_match(fs.chain_bytes(cs), q, e2)
        };
    lemma_chain_unique(fs, cs1, cs2);
    let s = fs.chain_bytes(cs1);
    assert(first_match(s, q, e2));
    let k1 = choose|k: int|
        {
            &&& 0 <= k < crate::dir::entries_of(s).len()
            &&& e1 == #[trigger] crate::dir::entries_of(s)[k]
            &&& crate::text::ascii_eq_fold(crate::dir::entries_of(s)[k].name, q)
            &&& forall|j: int|
                0 <= j < k ==> !crate::text::ascii_eq_fold(
                    #[trigger] crate::dir::entries_of(s)[j].name,
                    q,
                )
        };
    let k2 = choose|k: int|
        {
            &&& 0 <= k < crate::dir::entries_of(s).len()
            &&& e2 == #[trigger] crate::dir::entries_of(s)[k]
            &&& crate::text::ascii_eq_fold(crate::dir::entries_of(s)[k].name, q)
            &&& forall|j: int|
                0 <= j < k ==> !crate::text::ascii_eq_fold(
                    #[trigger] crate::dir::entries_of(s)[j].name,
                    q,
                )
        };
    if k1 < k2 {
        assert(!crate::text::ascii_eq_fold(crate::dir::entries_of(s)[k1].name, q));
    }
    if k2 < k1 {
        assert(!crate::text::ascii_eq_fold(crate::dir::entries_of(s)[k2].name, q));
    }
    assert(k1 == k2);
}

/// Whether `trace` records a walk of the path components from the
/// root: it starts at the root directory, and each component names the
/// next entry — matched without regard to ASCII case — inside the
/// previous one, which must be a directory.
pub open spec fn resolve_trace<T: BlockDevice>(
    fs: VFat<T>,
    comps: Seq<Seq<char>>,
    trace: Seq<DirEntryInfo>,
) -> bool {
    &&& trace.len() == comps.len() + 1
    &&& trace[0] == root_info(fs)
    &&& forall|j: int|
        0 <= j < comps.len() ==> (#[trigger] trace[j]).is_dir && dir_lookup(
            fs,
            trace[j].cluster,
            comps[j],
            trace[j + 1],
        )
}

impl<T: BlockDevice> VFat<T> {
    /// Opens the entry at `path`, walking from the root one component at
    /// a time. Separators, `.` and `..` components are ignored; each
    /// remaining component must name an entry of the current directory,
    /// matched without regard to ASCII case, and every component but the
    /// last must name a directory. The bare root path resolves to the
    /// root directory itself.
    pub fn open(&mut self, path: &str) -> (r: Result<Entry, io::Error>)
        requires
            old(self).wf(),
        ensures
            final(self).wf(),
            same_fs(*final(self), *old(self)),
            match r {
                Ok(e) => {
                    &&& exists|trace: Seq<DirEntryInfo>|
                        #[trigger] resolve_trace(*old(self), path_components(path@), trace)
                            && trace[path_components(path@).len() as int] == entry_view(e)
                    &&& (match e {
                        Entry::EntryFile(f) => f.cursor == 0,
                        Entry::EntryDir(_) => true,
                    })
                },
                Err(e) => {
                    &&& (e == io::Error::NotFound ==> forall|tr: Seq<DirEntryInfo>|
                        !resolve_trace(*old(self), path_components(path@), tr))
                    &&& (e != io::Error::NotFound ==> io::device_error(e))
                },
            },
            path_components(path@).len() == 0 ==> (match r {
                Ok(e) => entry_view(e) == root_info(*old(self)),
                Err(_) => false,
            }),
    {
        let ghost p = path@;
        let ghost comps = path_components(p);
        let root_name = "/".to_owned();
        proof {
            reveal_strlit("/");
            assert(root_name@ =~= seq!['/']);
        }
        let mut entry = Entry::EntryDir(
            Dir {
                name: root_name,
                start_cluster: self.rootdir_cluster,
                metadata: Metadata {
                    attr: Attributes(0),
                    ctime: Timestamp { date: Date(0), time: Time(0) },
                    atime: Timestamp { date: Date(0), time: Time(0) },
                    mtime: Timestamp { date: Date(0), time: Time(0) },
                },
            },
        );
        let ghost mut ci: int = 0;
        let ghost mut trace: Seq<DirEntryInfo> = seq![entry_view(entry)];
        proof {
            assert(entry_view(entry) == root_info(*old(self)));
            assert(p.subrange(0, 0) =~= Seq::<char>::empty());
            assert(comps.skip(0) =~= comps);
        }
        let n = path.unicode_len();
        let nn = n as u128;
        let mut i: u128 = 0;
        let mut start: u128 = 0;
        while i <= nn
            invariant
                self.wf(),
                same_fs(*self, *old(self)),
                old(self).wf(),
                i <= nn + 1,
                start <= i,
                nn == n as u128,
                n == p.len(),
                p == path@,
                comps == path_components(p),
                0 <= ci <= comps.len(),
                i <= n ==> split_acc(p, i as int, p.subrange(start as int, i as int))
                    == comps.skip(ci),
                i == n + 1 ==> ci == comps.len(),
                trace.len() == ci + 1,
                trace[0] == root_info(*old(self)),
                forall|j: int|
                    0 <= j < ci ==> (#[trigger] trace[j]).is_dir && dir_lookup(
                        *old(self),
                        trace[j].cluster,
                        comps[j],
                        trace[j + 1],
                    ),
                trace[ci] == entry_view(entry),
                forall|tr: Seq<DirEntryInfo>|
                    #[trigger] resolve_trace(*old(self), comps, tr) ==> tr[ci] == entry_view(
                        entry,
                    ),
                (match entry {
                    Entry::EntryFile(f) => f.cursor == 0,
                    Entry::EntryDir(_) => true,
                }),
            decreases nn + 1 - i,
        {
            let at_sep = i == nn || path.get_char(i as usize) == '/';
            let ghost cur = p.subrange(start as int, i as int);
            if at_sep {
                let l = i - start;
                let kept = if l == 0 {
                    false
                } else if l == 1 {
                    path.get_char(start as usize) != '.'
                } else if l == 2 {
                    !(path.get_char(start as usize) == '.' && path.get_char(
                        (start + 1) as usize,
                    ) == '.')
                } else {
                    true
                };
                proof {
                    assert(seq!['.'].len() == 1 && seq!['.'][0] == '.');
                    assert(seq!['.', '.'].len() == 2 && seq!['.', '.'][0] == '.' && seq![
                        '.',
                        '.',
                    ][1] == '.');
                    assert(cur.len() == l);
                    if l == 1 {
                        if p[start as int] == '.' {
                            assert(cur =~= seq!['.']);
                        } else {
                            assert(cur[0] != '.');
                            assert(cur != seq!['.']);
                        }
                    }
                    if l == 2 {
                        if p[start as int] == '.' && p[start + 1] == '.' {
                            assert(cur =~= seq!['.', '.']);
                        } else {
                            assert(cur[0] != '.' || cur[1] != '.');
                            assert(cur != seq!['.', '.']);
                        }
                    }
                    assert(kept == keep_component(cur));
                }
                let ghost ci0 = ci;
                if kept {
                    let comp = path.substring_char(start as usize, i as usize);
                    proof {
                        if i < nn {
                            assert(p[i as int] == '/');
                            assert(comps.skip(ci) == seq![cur] + split_acc(
                                p,
                                i + 1,
                                Seq::empty(),
                            ));
                        } else {
                            assert(comps.skip(ci) == seq![cur]);
                        }
                        assert(comps.skip(ci).len() > 0);
                        assert(comps.skip(ci)[0] == cur);
                        assert(comps[ci] == cur);
                    }
                    let ghost fs_pre = *self;
                    let ghost prev = entry_view(entry);
                    let next_entry = match &entry {
                        Entry::EntryDir(d) => {
                            match d.find(self, comp) {
                                Ok(e2) => e2,
                                Err(e) => {
                                    proof {
                                        if e == io::Error::NotFound {
                                            assert forall|tr: Seq<DirEntryInfo>| !resolve_trace(
                                                *old(self),
                                                comps,
                                                tr,
                                            ) by {
                                                if resolve_trace(*old(self), comps, tr) {
                                                    assert(tr[ci] == entry_view(entry));
                                                    assert(dir_lookup(
                                                        *old(self),
                                                        tr[ci].cluster,
                                                        comps[ci],
                                                        tr[ci + 1],
                                                    ));
                                                    let cs2 = choose|cs: Seq<u32>|
                                                        {
                                                            &&& #[trigger] old(self).is_chain(cs)
                                                            &&& cs[0] == entry_view(entry).cluster
                                                            &&& first_match(
                                                                old(self).chain_bytes(cs),
                                                                comps[ci],
                                                                tr[ci + 1],
                                                            )
                                                        };
                                                    lemma_same_fs_chain(fs_pre, *old(self), cs2);
                                                    assert(crate::dir::no_match(
                                                        fs_pre.chain_bytes(cs2),
                                                        comp@,
                                                    ));
                                                    let k = choose|k: int|
                                                        {
                                                            &&& 0 <= k < crate::dir::entries_of(
                                                                old(self).chain_bytes(cs2),
                                                            ).len()
                                                            &&& tr[ci + 1]
                                                                == #[trigger] crate::dir::entries_of(
                                                                old(self).chain_bytes(cs2),
                                                            )[k]
                                                            &&& crate::text::ascii_eq_fold(
                                                                crate::dir::entries_of(
                                                                    old(self).chain_bytes(cs2),
                                                                )[k].name,
                                                                comps[ci],
                                                            )
                                                        };
                                                    assert(!crate::text::ascii_eq_fold(
                                                        crate::dir::entries_of(
                                                            fs_pre.chain_bytes(cs2),
                                                        )[k].name,
                                                        comp@,
                                                    ));
                                                }
                                            }
                                        }
                                    }
                                    return Err(e);
                                },
                            }
                        },
                        Entry::EntryFile(_) => {
                            proof {
                                assert forall|tr: Seq<DirEntryInfo>| !resolve_trace(
                                    *old(self),
                                    comps,
                                    tr,
                                ) by {
                                    if resolve_trace(*old(self), comps, tr) {
                                        assert(tr[ci] == entry_view(entry));
                                        assert(tr[ci].is_dir);
                                        assert(!entry_view(entry).is_dir);
                                    }
                                }
                            }
                            return Err(io::Error::NotFound);
                        },
                    };
                    proof {
                        let cs = choose|cs: Seq<u32>|
                            {
                                &&& #[trigger] fs_pre.is_chain(cs)
                                &&& cs[0] == prev.cluster
                                &&& first_match(
                                    fs_pre.chain_bytes(cs),
                                    comp@,
                                    entry_view(next_entry),
                                )
                            };
                        lemma_same_fs_chain(fs_pre, *old(self), cs);
                        assert(old(self).is_chain(cs) && cs[0] == prev.cluster && first_match(
                            old(self).chain_bytes(cs),
                            comps[ci],
                            entry_view(next_entry),
                        ));
                        assert(dir_lookup(
                            *old(self),
                            prev.cluster,
                            comps[ci],
                            entry_view(next_entry),
                        ));
                        assert(prev.is_dir);
                        assert forall|tr: Seq<DirEntryInfo>|
                            #[trigger] resolve_trace(*old(self), comps, tr) implies tr[ci + 1]
                            == entry_view(next_entry) by {
                            assert(tr[ci] == entry_view(entry));
                            assert(dir_lookup(
                                *old(self),
                                tr[ci].cluster,
                                comps[ci],
                                tr[ci + 1],
                            ));
                            lemma_dir_lookup_unique(
                                *old(self),
                                entry_view(entry).cluster,
                                comps[ci],
                                tr[ci + 1],
                                entry_view(next_entry),
                            );
                        }
                        trace = trace.push(entry_view(next_entry));
                        ci = ci + 1;
                    }
                    entry = next_entry;
                }
                proof {
                    if i < nn {
                        assert(p[i as int] == '/');
                        if kept {
                            assert(comps.skip(ci0) == seq![cur] + split_acc(
                                p,
                                i + 1,
                                Seq::empty(),
                            ));
                            assert(comps.skip(ci0).skip(1) =~= comps.skip(ci0 + 1));
                            assert((seq![cur] + split_acc(p, i + 1, Seq::empty())).skip(1) =~=
                            split_acc(p, i + 1, Seq::empty()));
                        }
                        assert(split_acc(p, i + 1, Seq::empty()) == comps.skip(ci));
                        assert(p.subrange(i + 1, i + 1) =~= Seq::<char>::empty());
                    } else {
                        if kept {
                            assert(comps.skip(ci0) == seq![cur]);
                        } else {
                            assert(comps.skip(ci0) =~= Seq::<Seq<char>>::empty());
                        }
                        assert(ci == comps.len());
                    }
                }
                start = i + 1;
            } else {
                proof {
                    assert(p.subrange(start as int, i + 1) =~= cur.push(p[i as int]));
                }
            }
            i += 1;
        }
        proof {
            assert(ci == comps.len());
            assert(resolve_trace(*old(self), comps, trace));
            if comps.len() == 0 {
                assert(trace[0] == entry_view(entry));
            }
        }
        Ok(entry)
    }
}

} // verus!
