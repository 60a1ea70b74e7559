//! A cached view of one partition of a block device.
//!
//! [`CachedPartition`] maps logical, partition-relative sectors of the
//! size the BIOS parameter block declares onto physical device sectors,
//! and keeps every sector it has read in an in-memory cache, keyed by the
//! logical sector number. The cache is a `hashbrown` hash map; the few
//! map operations the driver needs are trusted wrappers whose contracts
//! speak of the map's contents as a `Map` of plain values.

use vstd::prelude::*;

use crate::device::BlockDevice;
use crate::io;

verus! {

#[verifier::external_type_specification]
#[verifier::external_body]
#[verifier::reject_recursive_types(K)]
#[verifier::reject_recursive_types(V)]
#[verifier::reject_recursive_types(S)]
pub struct ExHashMap<K, V, S>(hashbrown::HashMap<K, V, S>);

/// The sector cache: logical sector number to (bytes, dirty flag), hashed
/// by std's default hasher.
pub type SectorMap = hashbrown::HashMap<
    u64,
    (Vec<u8>, bool),
    std::collections::hash_map::RandomState,
>;

/// The contents of a sector cache: for each cached logical sector, its
/// bytes and its dirty flag.
pub uninterp spec fn cache_view(m: SectorMap) -> Map<u64, (Seq<u8>, bool)>;

/// The empty cache contents.
pub open spec fn empty_cache() -> Map<u64, (Seq<u8>, bool)> {
    Map::empty()
}

/// Relies on hashbrown::HashMap::with_hasher: the new map is empty.
#[verifier::external_body]
fn map_new() -> (m: SectorMap)
    ensures
        cache_view(m) == empty_cache(),
{
    hashbrown::HashMap::with_hasher(std::collections::hash_map::RandomState::new())
}

/// Relies on hashbrown::HashMap::contains_key: whether the key is present.
#[verifier::external_body]
fn map_contains(m: &SectorMap, k: u64) -> (b: bool)
    ensures
        b == cache_view(*m).contains_key(k),
{
    m.contains_key(&k)
}

/// Relies on hashbrown::HashMap::get: the value stored under the key, or
/// `None` when the key is absent.
#[verifier::external_body]
fn map_get<'a>(m: &'a SectorMap, k: u64) -> (r: Option<&'a (Vec<u8>, bool)>)
    ensures
        match r {
            Some(p) => cache_view(*m).contains_key(k) && p.0@ == cache_view(*m)[k].0 && p.1
                == cache_view(*m)[k].1,
            None => !cache_view(*m).contains_key(k),
        },
{
    m.get(&k)
}

/// Relies on hashbrown::HashMap::insert: afterwards the key maps to the
/// value, and every other key is untouched.
#[verifier::external_body]
fn map_insert(m: &mut SectorMap, k: u64, data: Vec<u8>, dirty: bool)
    ensures
        cache_view(*final(m)) == cache_view(*old(m)).insert(k, (data@, dirty)),
{
    m.insert(k, (data, dirty));
}

/// Where a partition lies on its device, and how big its logical sectors
/// are.
pub struct Partition {
    /// The physical sector where the partition begins.
    pub start: u64,
    /// The number of logical sectors in the partition.
    pub num_sectors: u64,
    /// The size, in bytes, of a logical sector in the partition.
    pub sector_size: u64,
}

/// A block device restricted to one partition, with logical sectors of
/// the partition's size and a cache of every sector read so far.
pub struct CachedPartition<T: BlockDevice> {
    device: T,
    cache: SectorMap,
    partition: Partition,
}

/// The concatenation of `count` device sectors beginning at `start`.
pub open spec fn concat_sectors(sectors: Seq<Seq<u8>>, start: int, count: nat) -> Seq<u8>
    decreases count,
{
    if count == 0 {
        Seq::empty()
    } else {
        sectors[start] + concat_sectors(sectors, start + 1, (count - 1) as nat)
    }
}

/// Concatenating one more sector appends it at the end.
pub proof fn lemma_concat_snoc(sectors: Seq<Seq<u8>>, start: int, count: nat)
    ensures
        concat_sectors(sectors, start, (count + 1) as nat) == concat_sectors(
            sectors,
            start,
            count,
        ) + sectors[start + count],
    decreases count,
{
    if count == 0 {
        assert(concat_sectors(sectors, start + 1, 0) =~= Seq::<u8>::empty());
        assert(concat_sectors(sectors, start, 0) =~= Seq::<u8>::empty());
        assert(concat_sectors(sectors, start, 1) =~= concat_sectors(sectors, start, 0)
            + sectors[start]);
    } else {
        lemma_concat_snoc(sectors, start + 1, (count - 1) as nat);
        assert(concat_sectors(sectors, start, (count + 1) as nat) =~= concat_sectors(
            sectors,
            start,
            count,
        ) + sectors[start + count]);
    }
}

/// Two cached partitions with the same partition descriptor, device
/// contents, device sector size and cache contents present the same
/// sectors.
proof fn lemma_same_view<T: BlockDevice>(a: CachedPartition<T>, b: CachedPartition<T>)
    requires
        a.spec_partition() == b.spec_partition(),
        a.spec_device_sectors() == b.spec_device_sectors(),
        a.spec_factor() == b.spec_factor(),
        cache_view(a.cache) == cache_view(b.cache),
    ensures
        forall|v: int| a.disk_sector(v) == b.disk_sector(v),
        forall|v: u64| a.sector_contents(v) == b.sector_contents(v),
        forall|v: u64| a.sector_dirty(v) == b.sector_dirty(v),
{
    assert forall|v: int| a.disk_sector(v) == b.disk_sector(v) by {
        assert(a.partition.start == b.partition.start);
    }
    assert forall|v: u64| a.sector_contents(v) == b.sector_contents(v) by {
        assert(a.disk_sector(v as int) == b.disk_sector(v as int));
    }
}

impl<T: BlockDevice> CachedPartition<T> {
    /// The number of physical sectors in one logical sector.
    pub closed spec fn spec_factor(self) -> u64 {
        self.partition.sector_size / self.device.spec_sector_size()
    }

    /// The partition descriptor: start sector, sector count, sector size.
    pub closed spec fn spec_partition(self) -> (u64, u64, u64) {
        (self.partition.start, self.partition.num_sectors, self.partition.sector_size)
    }

    /// The underlying device's sectors.
    pub closed spec fn spec_device_sectors(self) -> Seq<Seq<u8>> {
        self.device.spec_sectors()
    }

    /// The on-disk bytes of logical sector `v`: the concatenation of its
    /// physical sectors.
    pub closed spec fn disk_sector(self, v: int) -> Seq<u8> {
        concat_sectors(
            self.device.spec_sectors(),
            self.partition.start + v * self.spec_factor(),
            self.spec_factor() as nat,
        )
    }

    /// The current bytes of logical sector `v`: the cached copy when one
    /// exists, the on-disk bytes otherwise.
    pub closed spec fn sector_contents(self, v: u64) -> Seq<u8> {
        if cache_view(self.cache).contains_key(v) {
            cache_view(self.cache)[v].0
        } else {
            self.disk_sector(v as int)
        }
    }

    /// Whether logical sector `v` is cached and marked dirty.
    pub closed spec fn sector_dirty(self, v: u64) -> bool {
        cache_view(self.cache).contains_key(v) && cache_view(self.cache)[v].1
    }

    /// Whether logical sector `v` has a cache slot: once read or written
    /// it is served from memory and stays cached.
    pub closed spec fn sector_cached(self, v: u64) -> bool {
        cache_view(self.cache).contains_key(v)
    }

    /// Well-formedness: the device is sound, the logical sector size is a
    /// positive multiple of the physical one, the partition fits in sector
    /// arithmetic, and every cached sector is in range, of full length,
    /// and — unless dirty — equal to its on-disk bytes.
    pub closed spec fn wf(self) -> bool {
        &&& self.device.wf()
        &&& self.device.spec_sector_size() <= self.partition.sector_size
        &&& self.partition.sector_size % self.device.spec_sector_size() == 0
        &&& self.partition.start + self.partition.num_sectors * self.spec_factor() <= u64::MAX
        &&& forall|v: u64|
            #[trigger] cache_view(self.cache).contains_key(v) ==> {
                &&& v < self.partition.num_sectors
                &&& cache_view(self.cache)[v].0.len() == self.partition.sector_size
                &&& (!cache_view(self.cache)[v].1 ==> cache_view(self.cache)[v].0
                    == self.disk_sector(v as int))
            }
    }

    /// Creates a cached view of `partition` on `device`. Logical sector 0
    /// is physical sector `partition.start`; logical sectors `[0,
    /// num_sectors)` are accessible. The partition's logical sector size
    /// must be a positive multiple of the device's.
    pub fn new(device: T, partition: Partition) -> (r: CachedPartition<T>)
        requires
            device.wf(),
            device.spec_sector_size() <= partition.sector_size,
            partition.sector_size % device.spec_sector_size() == 0,
            partition.start + partition.num_sectors * (partition.sector_size
                / device.spec_sector_size()) <= u64::MAX,
        ensures
            r.wf(),
            r.spec_partition() == (partition.start, partition.num_sectors, partition.sector_size),
            r.spec_device_sectors() == device.spec_sectors(),
            forall|v: u64| r.sector_contents(v) == r.disk_sector(v as int),
            forall|v: u64|
                #[trigger] r.sector_contents(v) == concat_sectors(
                    device.spec_sectors(),
                    partition.start + v * (partition.sector_size / device.spec_sector_size()),
                    (partition.sector_size / device.spec_sector_size()) as nat,
                ),
            forall|v: u64| !r.sector_dirty(v),
    {
        let r = CachedPartition { device, cache: map_new(), partition };
        proof {
            assert(forall|v: u64| !cache_view(r.cache).contains_key(v));
        }
        r
    }

    /// The number of physical sectors that make up one logical sector.
    fn factor(&self) -> (f: u64)
        requires
            self.wf(),
        ensures
            f == self.spec_factor(),
            f >= 1,
    {
        proof {
            self.device.wf_facts();
            vstd::arithmetic::div_mod::lemma_div_is_ordered_by_denominator(
                self.partition.sector_size as int,
                self.device.spec_sector_size() as int,
                self.partition.sector_size as int,
            );
            vstd::arithmetic::div_mod::lemma_div_by_self(self.partition.sector_size as int);
            vstd::arithmetic::div_mod::lemma_div_pos_is_pos(
                self.partition.sector_size as int,
                self.device.spec_sector_size() as int,
            );
        }
        self.partition.sector_size / self.device.sector_size()
    }

    /// The logical sector size.
    pub fn sector_size(&self) -> (s: u64)
        requires
            self.wf(),
        ensures
            s == self.spec_partition().2,
    {
        self.partition.sector_size
    }

    /// The number of logical sectors in the partition.
    pub fn num_sectors(&self) -> (n: u64)
        requires
            self.wf(),
        ensures
            n == self.spec_partition().1,
    {
        self.partition.num_sectors
    }

    /// A full logical sector holds as many bytes as the partition's
    /// sector size, and that is a positive number.
    pub proof fn lemma_sector_size_pos(self)
        requires
            self.wf(),
        ensures
            self.spec_partition().2 > 0,
    {
        self.device.wf_facts();
    }

    /// Maps a logical sector number to the physical sector where its bytes
    /// begin; `None` when the logical sector is out of range.
    fn virtual_to_physical(&self, virt: u64) -> (r: Option<u64>)
        requires
            self.wf(),
        ensures
            match r {
                Some(p) => virt < self.spec_partition().1 && p == self.spec_partition().0 + virt
                    * self.spec_factor(),
                None => virt >= self.spec_partition().1,
            },
    {
        if virt >= self.partition.num_sectors {
            return None;
        }
        let f = self.factor();
        proof {
            vstd::arithmetic::mul::lemma_mul_inequality(
                virt as int,
                self.partition.num_sectors as int,
                f as int,
            );
        }
        let physical_offset = virt * f;
        let physical_sector = self.partition.start + physical_offset;
        Some(physical_sector)
    }

    /// Reads the physical sectors of one logical sector from the device.
    fn read_sector_disk(&mut self, sector: u64) -> (r: Result<Vec<u8>, io::Error>)
        requires
            old(self).wf(),
        ensures
            final(self).wf(),
            final(self).spec_partition() == old(self).spec_partition(),
            final(self).spec_factor() == old(self).spec_factor(),
            final(self).spec_device_sectors() == old(self).spec_device_sectors(),
            cache_view(final(self).cache) == cache_view(old(self).cache),
            forall|v: u64| final(self).sector_contents(v) == old(self).sector_contents(v),
            forall|v: u64| final(self).sector_dirty(v) == old(self).sector_dirty(v),
            forall|v: int| final(self).disk_sector(v) == old(self).disk_sector(v),
            match r {
                Ok(data) => {
                    &&& sector < old(self).spec_partition().1
                    &&& data@ == old(self).disk_sector(sector as int)
                    &&& data@.len() == old(self).spec_partition().2
                },
                Err(e) => io::device_error(e) && (sector >= old(self).spec_partition().1
                    ==> e == io::Error::Other),
            },
    {
        let physical_sector = match self.virtual_to_physical(sector) {
            Some(p) => p,
            None => {
                return Err(io::Error::Other);
            },
        };
        let f = self.factor();
        let ghost dev0 = self.device.spec_sectors();
        let ghost dsz = self.device.spec_sector_size();
        proof {
            self.device.wf_facts();
            vstd::arithmetic::div_mod::lemma_fundamental_div_mod(
                self.partition.sector_size as int,
                dsz as int,
            );
            assert((f as int) * (dsz as int) == (dsz as int) * (f as int)) by (nonlinear_arith);
            assert((sector + 1) * (f as int) == sector * (f as int) + f) by (nonlinear_arith);
            vstd::arithmetic::mul::lemma_mul_inequality(
                sector as int + 1,
                self.partition.num_sectors as int,
                f as int,
            );
        }
        let mut data: Vec<u8> = Vec::new();
        proof {
            assert(data@ =~= concat_sectors(dev0, physical_sector as int, 0));
            assert(0 * (dsz as int) == 0) by (nonlinear_arith);
        }
        let mut i: u64 = 0;
        while i < f
            invariant
                self.wf(),
                self.spec_partition() == old(self).spec_partition(),
                self.spec_device_sectors() == old(self).spec_device_sectors(),
                self.device.spec_sector_size() == dsz,
                cache_view(self.cache) == cache_view(old(self).cache),
                self.spec_factor() == f,
                f == old(self).spec_factor(),
                self.device.spec_sectors() == dev0,
                self.partition.sector_size == f * dsz,
                i <= f,
                physical_sector == self.partition.start + sector * f,
                physical_sector + f <= u64::MAX,
                sector < self.partition.num_sectors,
                data@ == concat_sectors(dev0, physical_sector as int, i as nat),
                data@.len() == i * dsz,
            decreases f - i,
        {
            proof {
                self.device.wf_facts();
            }
            let res = self.device.read_all_sector(physical_sector + i, &mut data);
            match res {
                Ok(_) => {},
                Err(e) => {
                    proof {
                        lemma_same_view(*self, *old(self));
                    }
                    return Err(e);
                },
            }
            proof {
                lemma_concat_snoc(dev0, physical_sector as int, i as nat);
                assert((i + 1) * (dsz as int) == i * (dsz as int) + dsz) by (nonlinear_arith);
            }
            i += 1;
        }
        proof {
            self.device.wf_facts();
            vstd::arithmetic::div_mod::lemma_fundamental_div_mod(
                self.partition.sector_size as int,
                dsz as int,
            );
            assert((f as int) * (dsz as int) == (dsz as int) * (f as int)) by (nonlinear_arith);
            lemma_same_view(*self, *old(self));
        }
        Ok(data)
    }

    /// Fills the cache slot for `sector` from the device unless it is
    /// already present. The slot's bytes then hold the sector's current
    /// contents.
    fn cache_sector(&mut self, sector: u64) -> (r: Result<(), io::Error>)
        requires
            old(self).wf(),
        ensures
            final(self).wf(),
            final(self).spec_partition() == old(self).spec_partition(),
            final(self).spec_factor() == old(self).spec_factor(),
            final(self).spec_device_sectors() == old(self).spec_device_sectors(),
            forall|v: u64| final(self).sector_contents(v) == old(self).sector_contents(v),
            forall|v: u64| final(self).sector_dirty(v) == old(self).sector_dirty(v),
            forall|v: u64| old(self).sector_cached(v) ==> final(self).sector_cached(v),
            forall|v: int| final(self).disk_sector(v) == old(self).disk_sector(v),
            old(self).sector_cached(sector) ==> r is Ok,
            match r {
                Ok(_) => {
                    &&& sector < old(self).spec_partition().1
                    &&& final(self).sector_cached(sector)
                },
                Err(e) => io::device_error(e) && (sector >= old(self).spec_partition().1
                    ==> e == io::Error::Other),
            },
    {
        if map_contains(&self.cache, sector) {
            return Ok(());
        }
        let data = match self.read_sector_disk(sector) {
            Ok(d) => d,
            Err(e) => {
                return Err(e);
            },
        };
        let ghost pre = *self;
        map_insert(&mut self.cache, sector, data, false);
        proof {
            assert forall|v: u64| self.sector_contents(v) == old(self).sector_contents(v) by {
                lemma_same_view(pre, *old(self));
                assert(self.disk_sector(v as int) == pre.disk_sector(v as int));
                if v == sector {
                    assert(cache_view(self.cache)[v].0 == pre.disk_sector(sector as int));
                } else {
                    assert(cache_view(self.cache).contains_key(v) == cache_view(
                        pre.cache,
                    ).contains_key(v));
                }
            }
            assert forall|v: u64| self.sector_dirty(v) == old(self).sector_dirty(v) by {
                lemma_same_view(pre, *old(self));
            }
            assert forall|v: int| self.disk_sector(v) == old(self).disk_sector(v) by {
                lemma_same_view(pre, *old(self));
            }
            assert forall|v: u64|
                #[trigger] cache_view(self.cache).contains_key(v) implies {
                    &&& v < self.partition.num_sectors
                    &&& cache_view(self.cache)[v].0.len() == self.partition.sector_size
                    &&& (!cache_view(self.cache)[v].1 ==> cache_view(self.cache)[v].0
                        == self.disk_sector(v as int))
                } by {
                assert(self.disk_sector(v as int) == pre.disk_sector(v as int));
            }
        }
        Ok(())
    }

    /// Returns a copy of the current bytes of logical sector `sector`,
    /// reading it from the device on a cache miss. The dirty flag is
    /// untouched.
    pub fn get(&mut self, sector: u64) -> (r: Result<Vec<u8>, io::Error>)
        requires
            old(self).wf(),
        ensures
            final(self).wf(),
            final(self).spec_partition() == old(self).spec_partition(),
            final(self).spec_factor() == old(self).spec_factor(),
            final(self).spec_device_sectors() == old(self).spec_device_sectors(),
            forall|v: u64| final(self).sector_contents(v) == old(self).sector_contents(v),
            forall|v: u64| final(self).sector_dirty(v) == old(self).sector_dirty(v),
            forall|v: u64| old(self).sector_cached(v) ==> final(self).sector_cached(v),
            old(self).sector_cached(sector) ==> r is Ok,
            match r {
                Ok(data) => {
                    &&& sector < old(self).spec_partition().1
                    &&& data@ == old(self).sector_contents(sector)
                    &&& data@.len() == old(self).spec_partition().2
                    &&& final(self).sector_cached(sector)
                },
                Err(e) => io::device_error(e) && (sector >= old(self).spec_partition().1
                    ==> e == io::Error::Other),
            },
    {
        match self.cache_sector(sector) {
            Ok(_) => {},
            Err(e) => {
                return Err(e);
            },
        }
        match map_get(&self.cache, sector) {
            Some(p) => Ok(vstd::slice::slice_to_vec(p.0.as_slice())),
            None => vstd::pervasive::unreached(),
        }
    }

    /// Returns a copy of the current bytes of logical sector `sector` and
    /// marks the slot dirty, as callers are presumed to be about to write
    /// it back through `write_sector`.
    pub fn get_mut(&mut self, sector: u64) -> (r: Result<Vec<u8>, io::Error>)
        requires
            old(self).wf(),
        ensures
            final(self).wf(),
            final(self).spec_partition() == old(self).spec_partition(),
            final(self).spec_factor() == old(self).spec_factor(),
            final(self).spec_device_sectors() == old(self).spec_device_sectors(),
            forall|v: u64| final(self).sector_contents(v) == old(self).sector_contents(v),
            forall|v: u64|
                v != sector ==> final(self).sector_dirty(v) == old(self).sector_dirty(v),
            forall|v: u64| old(self).sector_cached(v) ==> final(self).sector_cached(v),
            old(self).sector_cached(sector) ==> r is Ok,
            match r {
                Ok(data) => {
                    &&& sector < old(self).spec_partition().1
                    &&& data@ == old(self).sector_contents(sector)
                    &&& data@.len() == old(self).spec_partition().2
                    &&& final(self).sector_dirty(sector)
                    &&& final(self).sector_cached(sector)
                },
                Err(e) => {
                    &&& io::device_error(e)
                    &&& (sector >= old(self).spec_partition().1 ==> e == io::Error::Other)
                    &&& final(self).sector_dirty(sector) == old(self).sector_dirty(sector)
                },
            },
    {
        match self.cache_sector(sector) {
            Ok(_) => {},
            Err(e) => {
                return Err(e);
            },
        }
        let data = match map_get(&self.cache, sector) {
            Some(p) => vstd::slice::slice_to_vec(p.0.as_slice()),
            None => vstd::pervasive::unreached(),
        };
        let copy = vstd::slice::slice_to_vec(data.as_slice());
        let ghost pre = *self;
        map_insert(&mut self.cache, sector, copy, true);
        proof {
            assert forall|v: u64| self.sector_contents(v) == old(self).sector_contents(v) by {
                assert(self.disk_sector(v as int) == pre.disk_sector(v as int));
                if v != sector {
                    assert(cache_view(self.cache).contains_key(v) == cache_view(
                        pre.cache,
                    ).contains_key(v));
                }
            }
            assert forall|v: u64|
                #[trigger] cache_view(self.cache).contains_key(v) implies {
                    &&& v < self.partition.num_sectors
                    &&& cache_view(self.cache)[v].0.len() == self.partition.sector_size
                    &&& (!cache_view(self.cache)[v].1 ==> cache_view(self.cache)[v].0
                        == self.disk_sector(v as int))
                } by {
                assert(self.disk_sector(v as int) == pre.disk_sector(v as int));
            }
        }
        Ok(data)
    }

    /// Reads logical sector `sector` into the front of `buf`: the smaller
    /// of the buffer length and the logical sector size bytes are copied.
    pub fn read_sector(&mut self, sector: u64, buf: &mut [u8]) -> (r: Result<usize, io::Error>)
        requires
            old(self).wf(),
        ensures
            final(self).wf(),
            final(self).spec_partition() == old(self).spec_partition(),
            final(self).spec_factor() == old(self).spec_factor(),
            final(self).spec_device_sectors() == old(self).spec_device_sectors(),
            forall|v: u64| final(self).sector_contents(v) == old(self).sector_contents(v),
            forall|v: u64| final(self).sector_dirty(v) == old(self).sector_dirty(v),
            forall|v: u64| old(self).sector_cached(v) ==> final(self).sector_cached(v),
            old(self).sector_cached(sector) ==> r is Ok,
            final(buf)@.len() == old(buf)@.len(),
            match r {
                Ok(k) => {
                    &&& sector < old(self).spec_partition().1
                    &&& k == if old(buf)@.len() < old(self).spec_partition().2 {
                        old(buf)@.len() as int
                    } else {
                        old(self).spec_partition().2 as int
                    }
                    &&& final(buf)@ == old(self).sector_contents(sector).take(k as int) + old(
                        buf,
                    )@.skip(k as int)
                },
                Err(e) => {
                    &&& final(buf)@ == old(buf)@
                    &&& io::device_error(e)
                    &&& (sector >= old(self).spec_partition().1 ==> e == io::Error::Other)
                },
            },
    {
        let data = match self.get(sector) {
            Ok(d) => d,
            Err(e) => {
                return Err(e);
            },
        };
        let len = if data.len() < buf.len() {
            data.len()
        } else {
            buf.len()
        };
        let mut i: usize = 0;
        while i < len
            invariant
                i <= len,
                len <= buf@.len(),
                len <= data@.len(),
                buf@.len() == old(buf)@.len(),
                forall|j: int| 0 <= j < i ==> buf@[j] == data@[j],
                forall|j: int| i <= j < buf@.len() ==> buf@[j] == old(buf)@[j],
            decreases len - i,
        {
            buf[i] = data[i];
            i += 1;
        }
        proof {
            assert(buf@ =~= data@.take(len as int) + old(buf)@.skip(len as int));
        }
        Ok(len)
    }

    /// Writes the front of `buf` to the cached copy of logical sector
    /// `sector`: the smaller of the buffer length and the logical sector
    /// size bytes are copied, and the slot is marked dirty. The device
    /// itself is not written.
    pub fn write_sector(&mut self, sector: u64, buf: &[u8]) -> (r: Result<usize, io::Error>)
        requires
            old(self).wf(),
        ensures
            final(self).wf(),
            final(self).spec_partition() == old(self).spec_partition(),
            final(self).spec_factor() == old(self).spec_factor(),
            final(self).spec_device_sectors() == old(self).spec_device_sectors(),
            forall|v: u64|
                v != sector ==> final(self).sector_contents(v) == old(self).sector_contents(v),
            forall|v: u64|
                v != sector ==> final(self).sector_dirty(v) == old(self).sector_dirty(v),
            forall|v: u64| old(self).sector_cached(v) ==> final(self).sector_cached(v),
            old(self).sector_cached(sector) ==> r is Ok,
            match r {
                Ok(k) => {
                    &&& sector < old(self).spec_partition().1
                    &&& k == if buf@.len() < old(self).spec_partition().2 {
                        buf@.len() as int
                    } else {
                        old(self).spec_partition().2 as int
                    }
                    &&& final(self).sector_contents(sector) == buf@.take(k as int) + old(
                        self,
                    ).sector_contents(sector).skip(k as int)
                    &&& final(self).sector_dirty(sector)
                },
                Err(e) => {
                    &&& forall|v: u64|
                        final(self).sector_contents(v) == old(self).sector_contents(v)
                    &&& io::device_error(e)
                    &&& (sector >= old(self).spec_partition().1 ==> e == io::Error::Other)
                },
            },
    {
        let mut data = match self.get(sector) {
            Ok(d) => d,
            Err(e) => {
                return Err(e);
            },
        };
        let len = if buf.len() < data.len() {
            buf.len()
        } else {
            data.len()
        };
        let ghost data0 = data@;
        let mut i: usize = 0;
        while i < len
            invariant
                i <= len,
                len <= buf@.len(),
                len <= data@.len(),
                data@.len() == data0.len(),
                forall|j: int| 0 <= j < i ==> data@[j] == buf@[j],
                forall|j: int| i <= j < data@.len() ==> data@[j] == data0[j],
            decreases len - i,
        {
            data[i] = buf[i];
            i += 1;
        }
        proof {
            assert(data@ =~= buf@.take(len as int) + data0.skip(len as int));
        }
        let ghost pre = *self;
        map_insert(&mut self.cache, sector, data, true);
        proof {
            assert forall|v: u64|
                v != sector implies self.sector_contents(v) == old(self).sector_contents(v) by {
                assert(self.disk_sector(v as int) == pre.disk_sector(v as int));
                assert(cache_view(self.cache).contains_key(v) == cache_view(
                    pre.cache,
                ).contains_key(v));
            }
            assert forall|v: u64|
                #[trigger] cache_view(self.cache).contains_key(v) implies {
                    &&& v < self.partition.num_sectors
                    &&& cache_view(self.cache)[v].0.len() == self.partition.sector_size
                    &&& (!cache_view(self.cache)[v].1 ==> cache_view(self.cache)[v].0
                        == self.disk_sector(v as int))
                } by {
                assert(self.disk_sector(v as int) == pre.disk_sector(v as int));
            }
        }
        Ok(len)
    }
}

} // verus!
