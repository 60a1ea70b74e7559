//! The block-device contract, and a RAM-backed device.
//!
//! The driver consumes sector-addressed storage through [`BlockDevice`].
//! A device's ghost state is the sequence of its sectors' contents; every
//! operation says how the bytes it moves relate to that state. [`RamDisk`]
//! is the one implementation in this crate: a device whose sectors live in
//! memory, used to mount disk images.

use vstd::prelude::*;

use crate::io;

verus! {

/// The per-sector contents of a vector of sector buffers.
pub open spec fn rows_view(v: Seq<Vec<u8>>) -> Seq<Seq<u8>> {
    Seq::new(v.len(), |i: int| v[i]@)
}

/// Sector-addressed storage.
///
/// A device has a constant sector size and a sequence of sectors, each
/// holding exactly one sector's worth of bytes. Reads may fail (a real
/// device can time out); whenever they succeed they return the device's
/// bytes exactly.
pub trait BlockDevice: Sized {
    /// The size of a sector in bytes, constant per instance.
    spec fn spec_sector_size(&self) -> u64;

    /// The contents of the device, one byte sequence per sector.
    spec fn spec_sectors(&self) -> Seq<Seq<u8>>;

    /// The device's basic well-formedness.
    spec fn wf(&self) -> bool;

    /// Well-formedness gives a positive sector size, and every sector's
    /// contents have exactly that length.
    proof fn wf_facts(&self)
        requires
            self.wf(),
        ensures
            self.spec_sector_size() > 0,
            forall|i: int|
                0 <= i < self.spec_sectors().len() ==> (#[trigger] self.spec_sectors()[i]).len()
                    == self.spec_sector_size(),
    ;

    /// The sector size in bytes.
    fn sector_size(&self) -> (r: u64)
        requires
            self.wf(),
        ensures
            r == self.spec_sector_size(),
    ;

    /// Reads sector `n` into the front of `buf`, short if `buf` is smaller
    /// than a sector. On success the number of bytes read is returned.
    fn read_sector(&mut self, n: u64, buf: &mut [u8]) -> (r: Result<usize, io::Error>)
        requires
            old(self).wf(),
        ensures
            final(self).wf(),
            final(self).spec_sector_size() == old(self).spec_sector_size(),
            final(self).spec_sectors() == old(self).spec_sectors(),
            final(buf)@.len() == old(buf)@.len(),
            match r {
                Ok(k) => {
                    &&& n < old(self).spec_sectors().len()
                    &&& k == if old(buf)@.len() < old(self).spec_sector_size() {
                        old(buf)@.len() as int
                    } else {
                        old(self).spec_sector_size() as int
                    }
                    &&& final(buf)@ == old(self).spec_sectors()[n as int].take(k as int) + old(
                        buf,
                    )@.skip(k as int)
                },
                Err(e) => final(buf)@ == old(buf)@ && io::device_error(e),
            },
    ;

    /// Writes the first sector's worth of `buf` to sector `n`. The buffer
    /// must hold at least one full sector; on success a full sector is
    /// written.
    fn write_sector(&mut self, n: u64, buf: &[u8]) -> (r: Result<usize, io::Error>)
        requires
            old(self).wf(),
        ensures
            final(self).wf(),
            final(self).spec_sector_size() == old(self).spec_sector_size(),
            final(self).spec_sectors().len() == old(self).spec_sectors().len(),
            match r {
                Ok(k) => {
                    &&& n < old(self).spec_sectors().len()
                    &&& buf@.len() >= old(self).spec_sector_size()
                    &&& k == old(self).spec_sector_size()
                    &&& final(self).spec_sectors() == old(self).spec_sectors().update(
                        n as int,
                        buf@.take(old(self).spec_sector_size() as int),
                    )
                },
                Err(_) => final(self).spec_sectors() == old(self).spec_sectors(),
            },
    ;

    /// Appends exactly one sector's worth of bytes, the contents of sector
    /// `n`, to `vec`. On failure `vec` is left as it was.
    fn read_all_sector(&mut self, n: u64, vec: &mut Vec<u8>) -> (r: Result<usize, io::Error>)
        requires
            old(self).wf(),
        ensures
            final(self).wf(),
            final(self).spec_sector_size() == old(self).spec_sector_size(),
            final(self).spec_sectors() == old(self).spec_sectors(),
            match r {
                Ok(k) => {
                    &&& n < old(self).spec_sectors().len()
                    &&& k == old(self).spec_sector_size()
                    &&& final(vec)@ == old(vec)@ + old(self).spec_sectors()[n as int]
                },
                Err(e) => final(vec)@ == old(vec)@ && io::device_error(e),
            },
    ;
}

/// A block device whose sectors live in memory.
pub struct RamDisk {
    sectors: Vec<Vec<u8>>,
    sector_size: usize,
}

impl RamDisk {
    /// Builds a device from one vector of bytes per sector. Returns `None`
    /// unless `sector_size` is positive and every row holds exactly one
    /// sector's worth of bytes.
    pub fn new(sectors: Vec<Vec<u8>>, sector_size: usize) -> (r: Option<RamDisk>)
        ensures
            match r {
                Some(d) => {
                    &&& d.wf()
                    &&& d.spec_sector_size() == sector_size
                    &&& d.spec_sectors() == rows_view(sectors@)
                },
                None => sector_size == 0 || exists|i: int|
                    0 <= i < sectors@.len() && (#[trigger] sectors@[i])@.len() != sector_size,
            },
    {
        if sector_size == 0 {
            return None;
        }
        let n = sectors.len();
        let mut i: usize = 0;
        while i < n
            invariant
                n == sectors@.len(),
                i <= n,
                forall|j: int| 0 <= j < i ==> (#[trigger] sectors@[j])@.len() == sector_size,
            decreases n - i,
        {
            if sectors[i].len() != sector_size {
                return None;
            }
            i += 1;
        }
        Some(RamDisk { sectors, sector_size })
    }

    /// The number of sectors the device holds.
    pub fn num_sectors(&self) -> (r: usize)
        ensures
            r == self.spec_sectors().len(),
    {
        self.sectors.len()
    }
}

impl BlockDevice for RamDisk {
    closed spec fn spec_sector_size(&self) -> u64 {
        self.sector_size as u64
    }

    closed spec fn spec_sectors(&self) -> Seq<Seq<u8>> {
        rows_view(self.sectors@)
    }

    closed spec fn wf(&self) -> bool {
        &&& self.sector_size > 0
        &&& forall|i: int|
            0 <= i < self.sectors@.len() ==> (#[trigger] self.sectors@[i])@.len()
                == self.sector_size
    }

    proof fn wf_facts(&self) {
    }

    fn sector_size(&self) -> (r: u64) {
        self.sector_size as u64
    }

    fn read_sector(&mut self, n: u64, buf: &mut [u8]) -> (r: Result<usize, io::Error>) {
        if n >= self.sectors.len() as u64 {
            return Err(io::Error::InvalidInput);
        }
        let idx = n as usize;
        let len = if buf.len() < self.sector_size {
            buf.len()
        } else {
            self.sector_size
        };
        let src = &self.sectors[idx];
        let mut i: usize = 0;
        while i < len
            invariant
                i <= len,
                len <= buf@.len(),
                len <= src@.len(),
                buf@.len() == old(buf)@.len(),
                forall|j: int| 0 <= j < i ==> buf@[j] == src@[j],
                forall|j: int| i <= j < buf@.len() ==> buf@[j] == old(buf)@[j],
            decreases len - i,
        {
            buf[i] = src[i];
            i += 1;
        }
        proof {
            assert(src@ == self.spec_sectors()[n as int]);
            assert(buf@ =~= self.spec_sectors()[n as int].take(len as int) + old(buf)@.skip(
                len as int,
            ));
        }
        Ok(len)
    }

    fn write_sector(&mut self, n: u64, buf: &[u8]) -> (r: Result<usize, io::Error>) {
        if n >= self.sectors.len() as u64 {
            return Err(io::Error::InvalidInput);
        }
        if buf.len() < self.sector_size {
            return Err(io::Error::InvalidInput);
        }
        let idx = n as usize;
        let mut fresh: Vec<u8> = Vec::new();
        proof {
            assert(fresh@ =~= buf@.take(0));
        }
        let mut i: usize = 0;
        while i < self.sector_size
            invariant
                i <= self.sector_size,
                self.sector_size <= buf@.len(),
                fresh@ == buf@.take(i as int),
            decreases self.sector_size - i,
        {
            fresh.push(buf[i]);
            proof {
                assert(fresh@ =~= buf@.take(i + 1 as int));
            }
            i += 1;
        }
        let ghost old_rows = rows_view(self.sectors@);
        self.sectors[idx] = fresh;
        proof {
            assert(self.spec_sectors() =~= old_rows.update(
                n as int,
                buf@.take(self.sector_size as int),
            ));
        }
        Ok(self.sector_size)
    }

    fn read_all_sector(&mut self, n: u64, vec: &mut Vec<u8>) -> (r: Result<usize, io::Error>) {
        if n >= self.sectors.len() as u64 {
            return Err(io::Error::InvalidInput);
        }
        let idx = n as usize;
        let src = &self.sectors[idx];
        proof {
            assert(vec@ =~= old(vec)@ + src@.take(0));
        }
        let mut i: usize = 0;
        while i < self.sector_size
            invariant
                i <= self.sector_size,
                src@.len() == self.sector_size,
                vec@ == old(vec)@ + src@.take(i as int),
            decreases self.sector_size - i,
        {
            vec.push(src[i]);
            proof {
                assert(vec@ =~= old(vec)@ + src@.take(i + 1 as int));
            }
            i += 1;
        }
        proof {
            assert(src@ == self.spec_sectors()[n as int]);
            assert(vec@ =~= old(vec)@ + src@);
        }
        Ok(self.sector_size)
    }
}

} // verus!
