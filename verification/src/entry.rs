//! A directory entry: a file or a directory.

use vstd::prelude::*;

use crate::dir::Dir;
use crate::file::File;
use crate::metadata::Metadata;

verus! {

/// What one directory entry means: its decoded name, its first cluster,
/// its size (zero for a directory), whether it is a directory, and its
/// metadata. This is the ghost shape the directory stream is specified
/// with.
pub ghost struct DirEntryInfo {
    pub name: Seq<char>,
    pub cluster: u32,
    pub size: u32,
    pub is_dir: bool,
    pub metadata: Metadata,
}

/// An entry of a directory: either a file or a subdirectory.
#[derive(Debug, Clone)]
pub enum Entry {
    EntryFile(File),
    EntryDir(Dir),
}

/// The meaning of an entry handle.
pub open spec fn entry_view(e: Entry) -> DirEntryInfo {
    match e {
        Entry::EntryFile(f) => DirEntryInfo {
            name: f.name@,
            cluster: f.start_cluster.0,
            size: f.size,
            is_dir: false,
            metadata: f.metadata,
        },
        Entry::EntryDir(d) => DirEntryInfo {
            name: d.name@,
            cluster: d.start_cluster.0,
            size: 0,
            is_dir: true,
            metadata: d.metadata,
        },
    }
}

impl Entry {
    /// The entry's display name.
    pub fn name(&self) -> (n: &str)
        ensures
            n@ == entry_view(*self).name,
    {
        match self {
            Entry::EntryFile(f) => f.name.as_str(),
            Entry::EntryDir(d) => d.name.as_str(),
        }
    }

    /// The entry's metadata.
    pub fn metadata(&self) -> (m: &Metadata)
        ensures
            m == &entry_view(*self).metadata,
    {
        match self {
            Entry::EntryFile(f) => &f.metadata,
            Entry::EntryDir(d) => &d.metadata,
        }
    }

    /// The file this entry holds, if it is a file.
    pub fn as_file(&self) -> (r: Option<&File>)
        ensures
            match r {
                Some(f) => *self == Entry::EntryFile(*f),
                None => self is EntryDir,
            },
    {
        match self {
            Entry::EntryFile(f) => Some(f),
            Entry::EntryDir(_) => None,
        }
    }

    /// The directory this entry holds, if it is a directory.
    pub fn as_dir(&self) -> (r: Option<&Dir>)
        ensures
            match r {
                Some(d) => *self == Entry::EntryDir(*d),
                None => self is EntryFile,
            },
    {
        match self {
            Entry::EntryDir(d) => Some(d),
            Entry::EntryFile(_) => None,
        }
    }

    /// The file this entry holds, consuming the entry.
    pub fn into_file(self) -> (r: Option<File>)
        ensures
            match r {
                Some(f) => self == Entry::EntryFile(f),
                None => self is EntryDir,
            },
    {
        match self {
            Entry::EntryFile(f) => Some(f),
            Entry::EntryDir(_) => None,
        }
    }

    /// The directory this entry holds, consuming the entry.
    pub fn into_dir(self) -> (r: Option<Dir>)
        ensures
            match r {
                Some(d) => self == Entry::EntryDir(d),
                None => self is EntryFile,
            },
    {
        match self {
            Entry::EntryDir(d) => Some(d),
            Entry::EntryFile(_) => None,
        }
    }
}

} // verus!
