//! File handles.
//!
//! A file is a name, a start cluster, metadata, a size, and a read
//! cursor. Reading fetches the file's whole cluster chain through the
//! sector cache and copies from the cursor on; the driver is read-only,
//! so writing, flushing and syncing fail as unimplemented.

use vstd::prelude::*;

use crate::cluster::Cluster;
use crate::device::BlockDevice;
use crate::io;
use crate::metadata::Metadata;
use crate::vfat::{same_fs, VFat};

verus! {

/// A position to seek to: from the start, from the end, or from the
/// current cursor.
#[derive(PartialEq, Eq, Structural, Debug, Copy, Clone)]
pub enum SeekFrom {
    Start(u64),
    End(i64),
    Current(i64),
}

/// A file of the filesystem.
#[derive(Debug, Clone)]
pub struct File {
    /// The file's name as displayed.
    pub name: String,
    /// The first cluster of the file's data.
    pub start_cluster: Cluster,
    /// The file's metadata.
    pub metadata: Metadata,
    /// The file's size in bytes.
    pub size: u32,
    /// The read cursor, an offset into the file.
    pub cursor: u32,
}

impl File {
    /// A file handle is sound when its cursor lies within the file.
    pub open spec fn wf(self) -> bool {
        self.cursor <= self.size
    }

    /// The file's metadata.
    pub fn metadata(&self) -> (m: &Metadata)
        ensures
            m == &self.metadata,
    {
        &self.metadata
    }

    /// The file's name.
    pub fn name(&self) -> (n: &str)
        ensures
            n@ == self.name@,
    {
        self.name.as_str()
    }

    /// The file's size in bytes.
    pub fn size(&self) -> (s: u64)
        ensures
            s == self.size as u64,
    {
        self.size as u64
    }

    /// Reads from the cursor into the front of `buf`: the smaller of the
    /// buffer's length and the bytes left before the end of the file, so
    /// zero at the end of the file. The bytes come from the file's
    /// cluster chain and the cursor advances past them.
    pub fn read<T: BlockDevice>(&mut self, fs: &mut VFat<T>, buf: &mut [u8]) -> (r: Result<
        usize,
        io::Error,
    >)
        requires
            old(fs).wf(),
            old(self).wf(),
        ensures
            final(fs).wf(),
            same_fs(*final(fs), *old(fs)),
            final(self).wf(),
            final(self).name == old(self).name,
            final(self).start_cluster == old(self).start_cluster,
            final(self).metadata == old(self).metadata,
            final(self).size == old(self).size,
            final(buf)@.len() == old(buf)@.len(),
            match r {
                Ok(n) => exists|cs: Seq<u32>|
                    {
                        let bytes = old(fs).chain_bytes(cs);
                        &&& #[trigger] old(fs).is_chain(cs)
                        &&& cs[0] == old(self).start_cluster.0
                        &&& n == if old(buf)@.len() < old(self).size - old(self).cursor {
                            old(buf)@.len() as int
                        } else {
                            old(self).size - old(self).cursor
                        }
                        &&& old(self).cursor + n <= bytes.len()
                        &&& final(buf)@ == bytes.subrange(
                            old(self).cursor as int,
                            old(self).cursor + n,
                        ) + old(buf)@.skip(n as int)
                        &&& final(self).cursor == old(self).cursor + n
                    },
                Err(e) => {
                    &&& final(self).cursor == old(self).cursor
                    &&& final(buf)@ == old(buf)@
                    &&& io::device_error(e)
                },
            },
    {
        let mut file_buf: Vec<u8> = Vec::new();
        match fs.read_chain(self.start_cluster, &mut file_buf) {
            Ok(_) => {},
            Err(e) => {
                return Err(e);
            },
        }
        let remaining = (self.size - self.cursor) as usize;
        let len = if buf.len() < remaining {
            buf.len()
        } else {
            remaining
        };
        let start = self.cursor as usize;
        if len > file_buf.len() || start > file_buf.len() - len {
            return Err(io::Error::UnexpectedEof);
        }
        let flen = file_buf.len();
        let mut i: usize = 0;
        while i < len
            invariant
                i <= len,
                len <= buf@.len(),
                flen == file_buf@.len(),
                start + len <= flen,
                buf@.len() == old(buf)@.len(),
                forall|j: int| 0 <= j < i ==> buf@[j] == file_buf@[start + j],
                forall|j: int| i <= j < buf@.len() ==> buf@[j] == old(buf)@[j],
            decreases len - i,
        {
            buf[i] = file_buf[start + i];
            i += 1;
        }
        proof {
            assert(buf@ =~= file_buf@.subrange(start as int, start + len) + old(buf)@.skip(
                len as int,
            ));
        }
        self.cursor = self.cursor + len as u32;
        Ok(len)
    }

    /// Seeks to `pos`. A seek to the end of the file is allowed; one
    /// before the start or past the end returns `InvalidInput` and
    /// leaves the cursor alone. On success the new position from the
    /// start of the file is returned.
    pub fn seek(&mut self, pos: SeekFrom) -> (r: Result<u64, io::Error>)
        requires
            old(self).wf(),
        ensures
            final(self).wf(),
            final(self).name == old(self).name,
            final(self).start_cluster == old(self).start_cluster,
            final(self).metadata == old(self).metadata,
            final(self).size == old(self).size,
            ({
                let target: int = match pos {
                    SeekFrom::Start(o) => o as int,
                    SeekFrom::End(d) => old(self).size + d,
                    SeekFrom::Current(d) => old(self).cursor + d,
                };
                match r {
                    Ok(v) => {
                        &&& 0 <= target
                        &&& target <= old(self).size
                        &&& v == target
                        &&& final(self).cursor == target
                    },
                    Err(e) => {
                        &&& e == io::Error::InvalidInput
                        &&& !(0 <= target && target <= old(self).size)
                        &&& final(self).cursor == old(self).cursor
                    },
                }
            }),
    {
        let target: i128 = match pos {
            SeekFrom::Start(o) => o as i128,
            SeekFrom::End(d) => self.size as i128 + d as i128,
            SeekFrom::Current(d) => self.cursor as i128 + d as i128,
        };
        if target < 0 || target > self.size as i128 {
            return Err(io::Error::InvalidInput);
        }
        self.cursor = target as u32;
        Ok(target as u64)
    }

    /// Writing is not implemented: the driver is read-only.
    pub fn write(&mut self, _buf: &[u8]) -> (r: Result<usize, io::Error>)
        ensures
            (match r {
                Ok(_) => false,
                Err(e) => e == io::Error::Unimplemented,
            }),
            *final(self) == *old(self),
    {
        Err(io::Error::Unimplemented)
    }

    /// Flushing is not implemented: the driver is read-only.
    pub fn flush(&mut self) -> (r: Result<(), io::Error>)
        ensures
            (match r {
                Ok(_) => false,
                Err(e) => e == io::Error::Unimplemented,
            }),
            *final(self) == *old(self),
    {
        Err(io::Error::Unimplemented)
    }

    /// Syncing is not implemented: the driver is read-only.
    pub fn sync(&mut self) -> (r: Result<(), io::Error>)
        ensures
            (match r {
                Ok(_) => false,
                Err(e) => e == io::Error::Unimplemented,
            }),
            *final(self) == *old(self),
    {
        Err(io::Error::Unimplemented)
    }
}

} // verus!
