//! Directory entries and the directory stream.
//!
//! A directory's data is a sequence of 32-byte slots. A slot whose first
//! byte is 0x00 ends the directory; 0xE5 marks a deleted slot; attribute
//! byte 0x0F marks a long-file-name record carrying 13 UTF-16 code units
//! and a position; anything else is a regular record. Long names are
//! reassembled by depositing each record's units at its position in a
//! staging buffer of 31 × 13 units, so records arriving in any order
//! converge to the natural-order name.

use vstd::prelude::*;

use crate::cluster::Cluster;
use crate::device::BlockDevice;
use crate::encoding::{le16_at, le32_at, spec_le16, spec_le32};
use crate::entry::{entry_view, DirEntryInfo, Entry};
use crate::file::File;
use crate::io;
use crate::metadata::{Attributes, Date, Metadata, Time, Timestamp};
use crate::text::{
    ascii_eq_fold, eq_ignore_ascii_case_chars, utf16_decode, utf16_to_string,
};
use crate::vfat::{same_fs, VFat};

verus! {

/// A regular 32-byte directory record, decoded field by field.
#[derive(Debug, Clone)]
pub struct VFatRegularDirEntry {
    /// The 8-byte short name, space-padded.
    pub name: Vec<u8>,
    /// The 3-byte extension, space-padded.
    pub extension: Vec<u8>,
    /// The attribute byte.
    pub attr: Attributes,
    /// The creation time.
    pub ctime: Time,
    /// The creation date.
    pub cdate: Date,
    /// The access date.
    pub adate: Date,
    /// The high 16 bits of the first cluster.
    pub cluster_num_high: u16,
    /// The modification time.
    pub mtime: Time,
    /// The modification date.
    pub mdate: Date,
    /// The low 16 bits of the first cluster.
    pub cluster_num_low: u16,
    /// The file size in bytes.
    pub file_size: u32,
}

impl VFatRegularDirEntry {
    /// Decodes the regular record in the 32-byte slot at byte offset
    /// `off` of `b`.
    pub fn from_slot(b: &Vec<u8>, off: usize) -> (e: VFatRegularDirEntry)
        requires
            off + 32 <= b@.len(),
            b@.len() <= usize::MAX,
        ensures
            e.name@ == b@.subrange(off as int, off + 8),
            e.extension@ == b@.subrange(off + 8, off + 11),
            e.attr == Attributes(b@[off + 11]),
            e.ctime == Time(spec_le16(b@, off + 14)),
            e.cdate == Date(spec_le16(b@, off + 16)),
            e.adate == Date(spec_le16(b@, off + 18)),
            e.cluster_num_high == spec_le16(b@, off + 20),
            e.mtime == Time(spec_le16(b@, off + 22)),
            e.mdate == Date(spec_le16(b@, off + 24)),
            e.cluster_num_low == spec_le16(b@, off + 26),
            e.file_size == spec_le32(b@, off + 28),
    {
        let name = vstd::slice::slice_to_vec(
            vstd::slice::slice_subrange(b.as_slice(), off, off + 8),
        );
        let extension = vstd::slice::slice_to_vec(
            vstd::slice::slice_subrange(b.as_slice(), off + 8, off + 11),
        );
        VFatRegularDirEntry {
            name,
            extension,
            attr: Attributes(b[off + 11]),
            ctime: Time(le16_at(b.as_slice(), off + 14)),
            cdate: Date(le16_at(b.as_slice(), off + 16)),
            adate: Date(le16_at(b.as_slice(), off + 18)),
            cluster_num_high: le16_at(b.as_slice(), off + 20),
            mtime: Time(le16_at(b.as_slice(), off + 22)),
            mdate: Date(le16_at(b.as_slice(), off + 24)),
            cluster_num_low: le16_at(b.as_slice(), off + 26),
            file_size: le32_at(b.as_slice(), off + 28),
        }
    }

    /// The record's first cluster: high and low halves joined, masked to
    /// 28 bits.
    pub fn cluster_number(&self) -> (c: Cluster)
        ensures
            c.0 == Cluster::spec_of_raw(
                ((self.cluster_num_high as u32) << 16) | self.cluster_num_low as u32,
            ),
    {
        Cluster::from(((self.cluster_num_high as u32) << 16) | self.cluster_num_low as u32)
    }

    /// The record's metadata: its attributes and timestamps. The access
    /// timestamp has a date only; its time of day is zero.
    pub fn metadata(&self) -> (m: Metadata)
        ensures
            m == (Metadata {
                attr: self.attr,
                ctime: Timestamp { date: self.cdate, time: self.ctime },
                atime: Timestamp { date: self.adate, time: Time(0) },
                mtime: Timestamp { date: self.mdate, time: self.mtime },
            }),
    {
        Metadata {
            attr: self.attr,
            ctime: Timestamp { date: self.cdate, time: self.ctime },
            atime: Timestamp { date: self.adate, time: Time(0) },
            mtime: Timestamp { date: self.mdate, time: self.mtime },
        }
    }
}

/// A long-file-name record: 13 UTF-16 code units and their position.
#[derive(Debug, Clone)]
pub struct VFatLfnDirEntry {
    /// The sequence byte: position bits and the last-record flag 0x40.
    pub sequence: u8,
    /// The first five code units.
    pub name1: Vec<u16>,
    /// The attribute byte, always 0x0F for a long-file-name record.
    pub attr: Attributes,
    /// The record type, zero for a name record.
    pub zero_type: u8,
    /// The checksum of the matching short name.
    pub checksum: u8,
    /// The next six code units.
    pub name2: Vec<u16>,
    /// The last two code units.
    pub name3: Vec<u16>,
}

impl VFatLfnDirEntry {
    /// Decodes the long-file-name record in the 32-byte slot at byte
    /// offset `off` of `b`.
    pub fn from_slot(b: &Vec<u8>, off: usize) -> (e: VFatLfnDirEntry)
        requires
            off + 32 <= b@.len(),
            b@.len() <= usize::MAX,
        ensures
            e.sequence == b@[off as int],
            e.attr == Attributes(b@[off + 11]),
            e.zero_type == b@[off + 12],
            e.checksum == b@[off + 13],
            e.name1@.len() == 5,
            forall|k: int| 0 <= k < 5 ==> e.name1@[k] == spec_le16(b@, off + 1 + 2 * k),
            e.name2@.len() == 6,
            forall|k: int| 0 <= k < 6 ==> e.name2@[k] == spec_le16(b@, off + 14 + 2 * k),
            e.name3@.len() == 2,
            forall|k: int| 0 <= k < 2 ==> e.name3@[k] == spec_le16(b@, off + 28 + 2 * k),
    {
        let mut name1: Vec<u16> = Vec::new();
        name1.push(le16_at(b.as_slice(), off + 1));
        name1.push(le16_at(b.as_slice(), off + 3));
        name1.push(le16_at(b.as_slice(), off + 5));
        name1.push(le16_at(b.as_slice(), off + 7));
        name1.push(le16_at(b.as_slice(), off + 9));
        let mut name2: Vec<u16> = Vec::new();
        name2.push(le16_at(b.as_slice(), off + 14));
        name2.push(le16_at(b.as_slice(), off + 16));
        name2.push(le16_at(b.as_slice(), off + 18));
        name2.push(le16_at(b.as_slice(), off + 20));
        name2.push(le16_at(b.as_slice(), off + 22));
        name2.push(le16_at(b.as_slice(), off + 24));
        let mut name3: Vec<u16> = Vec::new();
        name3.push(le16_at(b.as_slice(), off + 28));
        name3.push(le16_at(b.as_slice(), off + 30));
        VFatLfnDirEntry {
            sequence: b[off],
            name1,
            attr: Attributes(b[off + 11]),
            zero_type: b[off + 12],
            checksum: b[off + 13],
            name2,
            name3,
        }
    }
}

/// The bytes of a directory slot every record shares: the leading
/// sequence byte and the attribute byte, enough to classify the slot.
#[derive(PartialEq, Eq, Structural, Debug, Copy, Clone)]
pub struct VFatUnknownDirEntry {
    /// The slot's first byte: 0x00 ends the directory, 0xE5 marks a
    /// deleted slot, anything else begins a live record.
    pub sequence: u8,
    /// The attribute byte: exactly 0x0F for a long-file-name record.
    pub attr: Attributes,
}

impl VFatUnknownDirEntry {
    /// Reads the classifying bytes of the 32-byte slot at byte offset
    /// `off` of `b`.
    pub fn from_slot(b: &Vec<u8>, off: usize) -> (e: VFatUnknownDirEntry)
        requires
            off + 32 <= b@.len(),
            b@.len() <= usize::MAX,
        ensures
            e.sequence == b@[off as int],
            e.attr == Attributes(b@[off + 11]),
    {
        VFatUnknownDirEntry { sequence: b[off], attr: Attributes(b[off + 11]) }
    }
}

/// A directory handle: its name, its first cluster, and its metadata.
#[derive(Debug, Clone)]
pub struct Dir {
    /// The directory's name as displayed.
    pub name: String,
    /// The first cluster of the directory's data.
    pub start_cluster: Cluster,
    /// The directory's metadata.
    pub metadata: Metadata,
}

/// Whether `e` is the first entry of the directory data `s` whose name
/// equals `q` up to ASCII case.
pub open spec fn first_match(s: Seq<u8>, q: Seq<char>, e: DirEntryInfo) -> bool {
    exists|k: int|
        {
            &&& 0 <= k < entries_of(s).len()
            &&& e == #[trigger] entries_of(s)[k]
            &&& ascii_eq_fold(entries_of(s)[k].name, q)
            &&& forall|j: int|
                0 <= j < k ==> !ascii_eq_fold(#[trigger] entries_of(s)[j].name, q)
        }
}

/// Whether no entry of the directory data `s` has a name equal to `q`
/// up to ASCII case.
pub open spec fn no_match(s: Seq<u8>, q: Seq<char>) -> bool {
    forall|k: int|
        0 <= k < entries_of(s).len() ==> !ascii_eq_fold(#[trigger] entries_of(s)[k].name, q)
}

impl Dir {
    /// The directory's metadata.
    pub fn metadata(&self) -> (m: &Metadata)
        ensures
            m == &self.metadata,
    {
        &self.metadata
    }

    /// The directory's name.
    pub fn name(&self) -> (n: &str)
        ensures
            n@ == self.name@,
    {
        self.name.as_str()
    }

    /// Streams the directory's entries: its whole cluster chain is read
    /// once, and the stream decodes the copy.
    pub fn entries<T: BlockDevice>(&self, fs: &mut VFat<T>) -> (r: Result<
        DirEntryIter,
        io::Error,
    >)
        requires
            old(fs).wf(),
        ensures
            final(fs).wf(),
            same_fs(*final(fs), *old(fs)),
            match r {
                Ok(it) => {
                    &&& it.wf()
                    &&& !it.spec_done()
                    &&& it.spec_pos() == 0
                    &&& exists|cs: Seq<u32>|
                        {
                            &&& #[trigger] old(fs).is_chain(cs)
                            &&& cs[0] == self.start_cluster.0
                            &&& it.spec_data() == old(fs).chain_bytes(cs)
                        }
                },
                Err(e) => crate::io::device_error(e),
            },
    {
        let mut buf: Vec<u8> = Vec::new();
        match fs.read_chain(self.start_cluster, &mut buf) {
            Ok(_) => {},
            Err(e) => {
                return Err(e);
            },
        }
        Ok(DirEntryIter::new(buf))
    }

    /// Finds the first entry named `name`, compared without regard to
    /// ASCII case. Returns `NotFound` exactly when the directory holds
    /// no entry of that name; other errors come from the device.
    pub fn find<T: BlockDevice>(&self, fs: &mut VFat<T>, name: &str) -> (r: Result<
        Entry,
        io::Error,
    >)
        requires
            old(fs).wf(),
        ensures
            final(fs).wf(),
            same_fs(*final(fs), *old(fs)),
            match r {
                Ok(e) => ({
                    &&& exists|cs: Seq<u32>|
                        {
                            &&& #[trigger] old(fs).is_chain(cs)
                            &&& cs[0] == self.start_cluster.0
                            &&& first_match(old(fs).chain_bytes(cs), name@, entry_view(e))
                        }
                    &&& (match e {
                        Entry::EntryFile(f) => f.cursor == 0,
                        Entry::EntryDir(_) => true,
                    })
                }),
                Err(e) => {
                    &&& (e == io::Error::NotFound ==> forall|cs: Seq<u32>|
                        (#[trigger] old(fs).is_chain(cs) && cs[0] == self.start_cluster.0)
                            ==> no_match(old(fs).chain_bytes(cs), name@))
                    &&& (e != io::Error::NotFound ==> crate::io::device_error(e))
                },
            },
    {
        let mut it = match self.entries(fs) {
            Ok(it) => it,
            Err(e) => {
                proof {
                    assert(e != io::Error::NotFound);
                }
                return Err(e);
            },
        };
        let ghost cs = choose|cs: Seq<u32>|
            {
                &&& #[trigger] old(fs).is_chain(cs)
                &&& cs[0] == self.start_cluster.0
                &&& it.spec_data() == old(fs).chain_bytes(cs)
            };
        let ghost data = it.spec_data();
        let ghost es = entries_of(data);
        let ghost mut idx: int = 0;
        loop
            invariant
                fs.wf(),
                same_fs(*fs, *old(fs)),
                it.wf(),
                it.spec_data() == data,
                es == entries_of(data),
                old(fs).is_chain(cs),
                cs[0] == self.start_cluster.0,
                data == old(fs).chain_bytes(cs),
                0 <= idx <= es.len(),
                !it.spec_done() ==> entries_from(data, it.spec_pos()) == es.skip(idx),
                it.spec_done() ==> idx == es.len(),
                forall|j: int| 0 <= j < idx ==> !ascii_eq_fold(#[trigger] es[j].name, name@),
            decreases es.len() - idx,
        {
            match it.next() {
                Some(e) => {
                    proof {
                        assert(es.skip(idx).len() > 0);
                        assert(entry_view(e) == es.skip(idx)[0]);
                        assert(es.skip(idx)[0] == es[idx]);
                        assert(es.skip(idx).skip(1) =~= es.skip(idx + 1));
                    }
                    if eq_ignore_ascii_case_chars(e.name(), name) {
                        proof {
                            assert(ascii_eq_fold(es[idx].name, name@));
                            assert(first_match(data, name@, entry_view(e)));
                        }
                        return Ok(e);
                    }
                    proof {
                        idx = idx + 1;
                    }
                },
                None => {
                    proof {
                        assert(idx == es.len());
                        assert(no_match(data, name@));
                        assert forall|cs2: Seq<u32>|
                            (#[trigger] old(fs).is_chain(cs2) && cs2[0]
                                == self.start_cluster.0) implies no_match(
                            old(fs).chain_bytes(cs2),
                            name@,
                        ) by {
                            crate::vfat::lemma_chain_unique(*old(fs), cs2, cs);
                        }
                    }
                    return Err(io::Error::NotFound);
                },
            }
        }
    }
}

/// The number of whole 32-byte slots in a directory's data.
pub open spec fn spec_num_slots(s: Seq<u8>) -> int {
    s.len() as int / 32
}

/// The 32 bytes of slot `i`.
pub open spec fn slot_bytes(s: Seq<u8>, i: int) -> Seq<u8> {
    s.subrange(32 * i, 32 * i + 32)
}

/// The 13 UTF-16 code units a long-file-name slot carries, in order:
/// five from offset 1, six from offset 14, two from offset 28.
pub open spec fn lfn_slot_units(slot: Seq<u8>) -> Seq<u16> {
    Seq::new(
        13,
        |i: int|
            if i < 5 {
                spec_le16(slot, 1 + 2 * i)
            } else if i < 11 {
                spec_le16(slot, 14 + 2 * (i - 5))
            } else {
                spec_le16(slot, 28 + 2 * (i - 11))
            },
    )
}

/// The staging buffer after a long-file-name slot deposits its units at
/// its 1-indexed position. A position outside 1 to 31 would overflow the
/// staging buffer and is ignored.
pub open spec fn apply_lfn(slot: Seq<u8>, st: Seq<u16>) -> Seq<u16> {
    let p = (slot[0] & 0x1F) as int;
    if 1 <= p && p <= 31 {
        let base = 13 * (p - 1);
        Seq::new(
            st.len(),
            |i: int|
                if base <= i < base + 13 {
                    lfn_slot_units(slot)[i - base]
                } else {
                    st[i]
                },
        )
    } else {
        st
    }
}

/// The index of the first terminating unit (0x0000 or 0xFFFF) at or
/// after `i`, or the buffer's length if there is none.
pub open spec fn first_terminator(st: Seq<u16>, i: int) -> int
    decreases st.len() - i,
{
    if i < 0 || i >= st.len() {
        st.len() as int
    } else if st[i] == 0 || st[i] == 0xFFFF {
        i
    } else {
        first_terminator(st, i + 1)
    }
}

/// The length of `b` with trailing spaces removed.
pub open spec fn trimmed_len(b: Seq<u8>) -> int
    decreases b.len(),
{
    if b.len() == 0 {
        0
    } else if b.last() == 0x20 {
        trimmed_len(b.drop_last())
    } else {
        b.len() as int
    }
}

/// Whether every byte is ASCII.
pub open spec fn all_ascii(b: Seq<u8>) -> bool {
    forall|i: int| 0 <= i < b.len() ==> b[i] < 0x80
}

/// ASCII bytes widened to UTF-16 code units.
pub open spec fn ascii_units(b: Seq<u8>) -> Seq<u16> {
    Seq::new(b.len(), |i: int| b[i] as u16)
}

/// The display name of a regular record without a long name: the
/// space-trimmed 8-byte name, joined to the space-trimmed extension with
/// a dot when the extension is nonempty. The record yields no name when
/// a byte is not ASCII.
pub open spec fn short_name_units(slot: Seq<u8>) -> Option<Seq<u16>> {
    let nm = slot.subrange(0, 8);
    let nm2 = nm.take(trimmed_len(nm));
    let ex = slot.subrange(8, 11);
    let ex2 = ex.take(trimmed_len(ex));
    if all_ascii(nm2) && all_ascii(ex2) {
        if ex2.len() > 0 {
            Option::Some(ascii_units(nm2) + seq![0x2Eu16] + ascii_units(ex2))
        } else {
            Option::Some(ascii_units(nm2))
        }
    } else {
        Option::None
    }
}

/// The code units of the name a regular slot displays: the staged long
/// name up to its first terminator when long-file-name records preceded
/// it, the 8.3 name otherwise.
pub open spec fn slot_name_units(slot: Seq<u8>, st: Seq<u16>, lfn: bool) -> Option<Seq<u16>> {
    if lfn {
        Option::Some(st.take(first_terminator(st, 0)))
    } else {
        short_name_units(slot)
    }
}

/// The metadata packed in a regular slot.
pub open spec fn spec_slot_metadata(slot: Seq<u8>) -> Metadata {
    Metadata {
        attr: Attributes(slot[11]),
        ctime: Timestamp { date: Date(spec_le16(slot, 16)), time: Time(spec_le16(slot, 14)) },
        atime: Timestamp { date: Date(spec_le16(slot, 18)), time: Time(0) },
        mtime: Timestamp { date: Date(spec_le16(slot, 24)), time: Time(spec_le16(slot, 22)) },
    }
}

/// The first cluster packed in a regular slot, masked to 28 bits.
pub open spec fn spec_slot_cluster(slot: Seq<u8>) -> u32 {
    Cluster::spec_of_raw(((spec_le16(slot, 20) as u32) << 16) | spec_le16(slot, 26) as u32)
}

/// Whether a regular slot's directory bit is set.
pub open spec fn spec_slot_is_dir(slot: Seq<u8>) -> bool {
    slot[11] & 0x10 != 0
}

/// The file size packed in a regular slot.
pub open spec fn spec_slot_size(slot: Seq<u8>) -> u32 {
    spec_le32(slot, 28)
}

/// The entry a regular slot yields, once its name is decoded. A
/// directory entry carries no size.
pub open spec fn spec_slot_info(slot: Seq<u8>, name: Seq<char>) -> DirEntryInfo {
    DirEntryInfo {
        name,
        cluster: spec_slot_cluster(slot),
        size: if spec_slot_is_dir(slot) {
            0
        } else {
            spec_slot_size(slot)
        },
        is_dir: spec_slot_is_dir(slot),
        metadata: spec_slot_metadata(slot),
    }
}

/// The staging buffer before any long-file-name record: 31 × 13 zero
/// units.
pub open spec fn zero_staging() -> Seq<u16> {
    Seq::new(403, |i: int| 0u16)
}

/// The entries a directory's bytes yield from slot `pos` on, given the
/// staging state: deleted slots are skipped, long-file-name slots
/// deposit their units, a regular slot emits one entry and resets the
/// staging, and the stream ends at the end-of-directory slot, at the end
/// of the data, or at a name that does not decode.
pub open spec fn entries_rec(s: Seq<u8>, pos: int, st: Seq<u16>, lfn: bool) -> Seq<DirEntryInfo>
    decreases spec_num_slots(s) - pos,
{
    if pos < 0 || pos >= spec_num_slots(s) {
        Seq::empty()
    } else {
        let slot = slot_bytes(s, pos);
        if slot[0] == 0 {
            Seq::empty()
        } else if slot[0] == 0xE5 {
            entries_rec(s, pos + 1, st, lfn)
        } else if slot[11] == 0x0F {
            entries_rec(s, pos + 1, apply_lfn(slot, st), true)
        } else {
            match slot_name_units(slot, st, lfn) {
                Option::None => Seq::empty(),
                Option::Some(units) => match utf16_decode(units) {
                    Option::None => Seq::empty(),
                    Option::Some(nm) => seq![spec_slot_info(slot, nm)] + entries_rec(
                        s,
                        pos + 1,
                        zero_staging(),
                        false,
                    ),
                },
            }
        }
    }
}

/// The entries a directory's bytes yield from slot `pos` on, at an
/// emission boundary: fresh staging, no long-file-name record pending.
pub open spec fn entries_from(s: Seq<u8>, pos: int) -> Seq<DirEntryInfo> {
    entries_rec(s, pos, zero_staging(), false)
}

/// All the entries a directory's bytes yield.
pub open spec fn entries_of(s: Seq<u8>) -> Seq<DirEntryInfo> {
    entries_from(s, 0)
}

/// The slot indexes of the live regular records from `pos` on: the
/// records before the end-of-directory slot that are neither deleted
/// nor long-file-name records.
pub open spec fn live_regular_slots(s: Seq<u8>, pos: int) -> Seq<int>
    decreases spec_num_slots(s) - pos,
{
    if pos < 0 || pos >= spec_num_slots(s) {
        Seq::empty()
    } else {
        let slot = slot_bytes(s, pos);
        if slot[0] == 0 {
            Seq::empty()
        } else if slot[0] == 0xE5 {
            live_regular_slots(s, pos + 1)
        } else if slot[11] == 0x0F {
            live_regular_slots(s, pos + 1)
        } else {
            seq![pos] + live_regular_slots(s, pos + 1)
        }
    }
}

/// Whether every live regular record from `pos` on, in the given
/// staging state, carries a name that decodes.
pub open spec fn names_decode(s: Seq<u8>, pos: int, st: Seq<u16>, lfn: bool) -> bool
    decreases spec_num_slots(s) - pos,
{
    if pos < 0 || pos >= spec_num_slots(s) {
        true
    } else {
        let slot = slot_bytes(s, pos);
        if slot[0] == 0 {
            true
        } else if slot[0] == 0xE5 {
            names_decode(s, pos + 1, st, lfn)
        } else if slot[11] == 0x0F {
            names_decode(s, pos + 1, apply_lfn(slot, st), true)
        } else {
            &&& slot_name_units(slot, st, lfn) is Some
            &&& utf16_decode(slot_name_units(slot, st, lfn).unwrap()) is Some
            &&& names_decode(s, pos + 1, zero_staging(), false)
        }
    }
}

/// The stream emits exactly the live regular records, in order: when
/// every name decodes, there is one entry per record — deleted slots,
/// long-file-name slots and everything at or after the end-of-directory
/// slot are passed over — and each entry carries its record's cluster,
/// size, kind and metadata.
pub proof fn lemma_stream_covers_live_records(s: Seq<u8>, pos: int, st: Seq<u16>, lfn: bool)
    requires
        names_decode(s, pos, st, lfn),
    ensures
        entries_rec(s, pos, st, lfn).len() == live_regular_slots(s, pos).len(),
        forall|k: int|
            0 <= k < entries_rec(s, pos, st, lfn).len() ==> {
                &&& (#[trigger] entries_rec(s, pos, st, lfn)[k]).cluster == spec_slot_cluster(
                    slot_bytes(s, live_regular_slots(s, pos)[k]),
                )
                &&& entries_rec(s, pos, st, lfn)[k].is_dir == spec_slot_is_dir(
                    slot_bytes(s, live_regular_slots(s, pos)[k]),
                )
                &&& entries_rec(s, pos, st, lfn)[k].metadata == spec_slot_metadata(
                    slot_bytes(s, live_regular_slots(s, pos)[k]),
                )
                &&& entries_rec(s, pos, st, lfn)[k] == spec_slot_info(
                    slot_bytes(s, live_regular_slots(s, pos)[k]),
                    entries_rec(s, pos, st, lfn)[k].name,
                )
            },
    decreases spec_num_slots(s) - pos,
{
    if pos < 0 || pos >= spec_num_slots(s) {
    } else {
        let slot = slot_bytes(s, pos);
        if slot[0] == 0 {
        } else if slot[0] == 0xE5 {
            lemma_stream_covers_live_records(s, pos + 1, st, lfn);
        } else if slot[11] == 0x0F {
            lemma_stream_covers_live_records(s, pos + 1, apply_lfn(slot, st), true);
        } else {
            lemma_stream_covers_live_records(s, pos + 1, zero_staging(), false);
            let units = slot_name_units(slot, st, lfn).unwrap();
            let nm = utf16_decode(units).unwrap();
            let es = entries_rec(s, pos, st, lfn);
            let rs = live_regular_slots(s, pos);
            let es1 = entries_rec(s, pos + 1, zero_staging(), false);
            let rs1 = live_regular_slots(s, pos + 1);
            assert(es == seq![spec_slot_info(slot, nm)] + es1);
            assert(rs == seq![pos] + rs1);
            assert forall|k: int| 0 <= k < es.len() implies {
                &&& (#[trigger] es[k]).cluster == spec_slot_cluster(slot_bytes(s, rs[k]))
                &&& es[k].is_dir == spec_slot_is_dir(slot_bytes(s, rs[k]))
                &&& es[k].metadata == spec_slot_metadata(slot_bytes(s, rs[k]))
                &&& es[k] == spec_slot_info(slot_bytes(s, rs[k]), es[k].name)
            } by {
                if k == 0 {
                    assert(es[0] == spec_slot_info(slot, nm));
                    assert(rs[0] == pos);
                } else {
                    assert(es[k] == es1[k - 1]);
                    assert(rs[k] == rs1[k - 1]);
                }
            }
        }
    }
}

/// A directory whose data begins with an end-of-directory slot yields no
/// entries at all.
pub proof fn lemma_end_slot_no_entries(s: Seq<u8>)
    requires
        spec_num_slots(s) > 0,
        slot_bytes(s, 0)[0] == 0,
    ensures
        entries_of(s) == Seq::<DirEntryInfo>::empty(),
{
}

/// A 16-bit field of a slot is the corresponding field of the whole
/// data.
proof fn lemma_slot_le16(s: Seq<u8>, pos: int, j: int)
    requires
        0 <= pos,
        32 * pos + 32 <= s.len(),
        0 <= j,
        j + 2 <= 32,
    ensures
        spec_le16(slot_bytes(s, pos), j) == spec_le16(s, 32 * pos + j),
{
    assert(slot_bytes(s, pos).subrange(j, j + 2) =~= s.subrange(32 * pos + j, 32 * pos + j + 2));
}

/// A 32-bit field of a slot is the corresponding field of the whole
/// data.
proof fn lemma_slot_le32(s: Seq<u8>, pos: int, j: int)
    requires
        0 <= pos,
        32 * pos + 32 <= s.len(),
        0 <= j,
        j + 4 <= 32,
    ensures
        spec_le32(slot_bytes(s, pos), j) == spec_le32(s, 32 * pos + j),
{
    assert(slot_bytes(s, pos).subrange(j, j + 4) =~= s.subrange(32 * pos + j, 32 * pos + j + 4));
}

/// A scan that found no terminating unit before `t`, and one at `t` or
/// the buffer's end, found the first terminator.
proof fn lemma_first_terminator(st: Seq<u16>, i: int, t: int)
    requires
        0 <= i <= t <= st.len(),
        forall|k: int| i <= k < t ==> st[k] != 0 && st[k] != 0xFFFF,
        t == st.len() || st[t] == 0 || st[t] == 0xFFFF,
    ensures
        first_terminator(st, i) == t,
    decreases t - i,
{
    if i < t {
        lemma_first_terminator(st, i + 1, t);
    }
}

/// Allocates the staging buffer: 31 × 13 zero units.
fn fresh_staging() -> (v: Vec<u16>)
    ensures
        v@ == zero_staging(),
{
    let mut v: Vec<u16> = Vec::new();
    let mut i: usize = 0;
    while i < 403
        invariant
            i <= 403,
            v@.len() == i,
            forall|k: int| 0 <= k < i ==> v@[k] == 0u16,
        decreases 403 - i,
    {
        v.push(0u16);
        i += 1;
    }
    proof {
        assert(v@ =~= zero_staging());
    }
    v
}

/// Decodes the staged long name up to its first terminator, or `None`
/// when its units are not valid UTF-16.
fn lfn_name(staging: &Vec<u16>) -> (r: Option<String>)
    ensures
        ({
            let units = staging@.take(first_terminator(staging@, 0));
            match r {
                Some(st) => utf16_decode(units) == Option::Some(st@),
                None => utf16_decode(units) is None,
            }
        }),
{
    let mut t: usize = 0;
    let n = staging.len();
    while t < n && staging[t] != 0 && staging[t] != 0xFFFF
        invariant
            t <= n,
            n == staging@.len(),
            forall|k: int| 0 <= k < t ==> staging@[k] != 0 && staging@[k] != 0xFFFF,
        decreases n - t,
    {
        t += 1;
    }
    proof {
        lemma_first_terminator(staging@, 0, t as int);
    }
    let sub = vstd::slice::slice_subrange(staging.as_slice(), 0, t);
    proof {
        assert(sub@ =~= staging@.take(t as int));
    }
    utf16_to_string(sub)
}

/// Builds the display name of a regular record without a long name, or
/// `None` when a name byte is not ASCII.
fn short_name(data: &Vec<u8>, off: usize) -> (r: Option<String>)
    requires
        off + 32 <= data@.len(),
        data@.len() <= usize::MAX,
    ensures
        ({
            let slot = data@.subrange(off as int, off + 32);
            match r {
                Some(st) => short_name_units(slot) is Some && utf16_decode(
                    short_name_units(slot).unwrap(),
                ) == Option::Some(st@),
                None => short_name_units(slot) is None || utf16_decode(
                    short_name_units(slot).unwrap(),
                ) is None,
            }
        }),
{
    let ghost slot = data@.subrange(off as int, off + 32);
    let ghost nm = slot.subrange(0, 8);
    let ghost ex = slot.subrange(8, 11);
    proof {
        assert(nm.take(8) =~= nm);
    }
    let mut nl: usize = 8;
    while nl > 0 && data[off + nl - 1] == 0x20
        invariant
            nl <= 8,
            off + 32 <= data@.len(),
            data@.len() <= usize::MAX,
            nm == data@.subrange(off as int, off + 32).subrange(0, 8),
            trimmed_len(nm) == trimmed_len(nm.take(nl as int)),
        decreases nl,
    {
        proof {
            assert(nm[nl - 1] == data@[off + nl - 1]);
            assert(nm.take(nl as int).last() == 0x20);
            assert(nm.take(nl as int).drop_last() =~= nm.take(nl - 1));
        }
        nl -= 1;
    }
    proof {
        if nl > 0 {
            assert(nm.take(nl as int).last() == data@[off + nl - 1]);
        }
        assert(trimmed_len(nm) == nl);
        assert(nm.take(trimmed_len(nm)) =~= nm.take(nl as int));
    }
    proof {
        assert(ex.take(3) =~= ex);
    }
    let mut el: usize = 3;
    while el > 0 && data[off + 8 + el - 1] == 0x20
        invariant
            el <= 3,
            off + 32 <= data@.len(),
            data@.len() <= usize::MAX,
            ex == data@.subrange(off as int, off + 32).subrange(8, 11),
            trimmed_len(ex) == trimmed_len(ex.take(el as int)),
        decreases el,
    {
        proof {
            assert(ex[el - 1] == data@[off + 8 + el - 1]);
            assert(ex.take(el as int).last() == 0x20);
            assert(ex.take(el as int).drop_last() =~= ex.take(el - 1));
        }
        el -= 1;
    }
    proof {
        if el > 0 {
            assert(ex.take(el as int).last() == data@[off + 8 + el - 1]);
        }
        assert(trimmed_len(ex) == el);
        assert(ex.take(trimmed_len(ex)) =~= ex.take(el as int));
    }
    let ghost nm2 = nm.take(nl as int);
    let ghost ex2 = ex.take(el as int);
    let mut units: Vec<u16> = Vec::new();
    let mut k: usize = 0;
    while k < nl
        invariant
            k <= nl,
            nl <= 8,
            off + 32 <= data@.len(),
            data@.len() <= usize::MAX,
            slot == data@.subrange(off as int, off + 32),
            nm == slot.subrange(0, 8),
            nm2 == nm.take(trimmed_len(nm)),
            nm2.len() == nl,
            forall|i: int| 0 <= i < nl ==> nm2[i] == data@[off + i],
            units@.len() == k,
            forall|i: int| 0 <= i < k ==> units@[i] == nm2[i] as u16,
            forall|i: int| 0 <= i < k ==> nm2[i] < 0x80,
        decreases nl - k,
    {
        let b = data[off + k];
        if b >= 0x80 {
            proof {
                assert(nm2[k as int] >= 0x80);
                assert(!all_ascii(nm2));
            }
            return None;
        }
        units.push(b as u16);
        k += 1;
    }
    proof {
        assert(all_ascii(nm2));
        assert(units@ =~= ascii_units(nm2));
    }
    if el > 0 {
        units.push(0x2E);
        let ghost head = ascii_units(nm2) + seq![0x2Eu16];
        proof {
            assert(units@ =~= head);
        }
        let mut k2: usize = 0;
        while k2 < el
            invariant
                k2 <= el,
                el <= 3,
                off + 32 <= data@.len(),
                data@.len() <= usize::MAX,
                slot == data@.subrange(off as int, off + 32),
                nm == slot.subrange(0, 8),
                nm2 == nm.take(trimmed_len(nm)),
                ex == slot.subrange(8, 11),
                ex2 == ex.take(trimmed_len(ex)),
                all_ascii(nm2),
                ex2.len() == el,
                head == ascii_units(nm2) + seq![0x2Eu16],
                forall|i: int| 0 <= i < el ==> ex2[i] == data@[off + 8 + i],
                units@.len() == head.len() + k2,
                units@.take(head.len() as int) == head,
                forall|i: int| 0 <= i < k2 ==> units@[head.len() + i] == ex2[i] as u16,
                forall|i: int| 0 <= i < k2 ==> ex2[i] < 0x80,
            decreases el - k2,
        {
            let b = data[off + 8 + k2];
            if b >= 0x80 {
                proof {
                    assert(ex2[k2 as int] >= 0x80);
                    assert(!all_ascii(ex2));
                }
                return None;
            }
            units.push(b as u16);
            proof {
                assert(units@.take(head.len() as int) =~= head);
            }
            k2 += 1;
        }
        proof {
            assert(all_ascii(ex2));
            assert(units@ =~= ascii_units(nm2) + seq![0x2Eu16] + ascii_units(ex2));
            assert(short_name_units(slot) == Option::Some(units@));
        }
        utf16_to_string(units.as_slice())
    } else {
        proof {
            assert(all_ascii(ex2)) by {
                assert(ex2.len() == 0);
            }
            assert(short_name_units(slot) == Option::Some(units@));
        }
        utf16_to_string(units.as_slice())
    }
}

/// A stream of the entries of one directory, decoded from an owned copy
/// of the directory's bytes.
pub struct DirEntryIter {
    data: Vec<u8>,
    pos: usize,
    done: bool,
}

impl DirEntryIter {
    /// The directory bytes the stream walks.
    pub closed spec fn spec_data(self) -> Seq<u8> {
        self.data@
    }

    /// The next slot to inspect.
    pub closed spec fn spec_pos(self) -> int {
        self.pos as int
    }

    /// Whether the stream has ended for good.
    pub closed spec fn spec_done(self) -> bool {
        self.done
    }

    /// The stream's position stays within its slots.
    pub closed spec fn wf(self) -> bool {
        self.pos as int <= spec_num_slots(self.data@)
    }

    /// Starts a stream over a directory's bytes.
    pub fn new(data: Vec<u8>) -> (it: DirEntryIter)
        ensures
            it.wf(),
            it.spec_data() == data@,
            it.spec_pos() == 0,
            !it.spec_done(),
    {
        proof {
            vstd::arithmetic::div_mod::lemma_div_pos_is_pos(data@.len() as int, 32);
        }
        DirEntryIter { data, pos: 0, done: false }
    }

    /// Yields the next entry of the directory, or `None` — forever —
    /// once the stream has ended: at the end-of-directory slot, at the
    /// end of the data, or at a name that does not decode.
    pub fn next(&mut self) -> (r: Option<Entry>)
        requires
            old(self).wf(),
        ensures
            final(self).wf(),
            final(self).spec_data() == old(self).spec_data(),
            old(self).spec_done() ==> r is None && final(self).spec_done(),
            !old(self).spec_done() ==> ({
                let stream = entries_from(old(self).spec_data(), old(self).spec_pos());
                match r {
                    Some(e) => {
                        &&& stream.len() > 0
                        &&& entry_view(e) == stream[0]
                        &&& (match e {
                            Entry::EntryFile(f) => f.cursor == 0,
                            Entry::EntryDir(_) => true,
                        })
                        &&& !final(self).spec_done()
                        &&& entries_from(final(self).spec_data(), final(self).spec_pos())
                            == stream.skip(1)
                    },
                    None => stream.len() == 0 && final(self).spec_done(),
                }
            }),
    {
        if self.done {
            return None;
        }
        let ghost s = self.data@;
        let ghost stream0 = entries_from(s, self.pos as int);
        let mut staging: Vec<u16> = fresh_staging();
        let mut has_lfn = false;
        let dlen = self.data.len();
        let num = dlen / 32;
        while self.pos < num
            invariant
                self.wf(),
                self.data@ == s,
                !self.done,
                s == old(self).spec_data(),
                !old(self).spec_done(),
                stream0 == entries_from(s, old(self).spec_pos()),
                dlen == s.len(),
                num == spec_num_slots(s),
                staging@.len() == 403,
                entries_rec(s, self.pos as int, staging@, has_lfn) == stream0,
            decreases num - self.pos,
        {
            let pos = self.pos;
            proof {
                vstd::arithmetic::div_mod::lemma_fundamental_div_mod(dlen as int, 32);
                vstd::arithmetic::div_mod::lemma_mod_bound(dlen as int, 32);
                vstd::arithmetic::mul::lemma_mul_inequality(pos as int + 1, num as int, 32);
                vstd::arithmetic::mul::lemma_mul_is_commutative(pos as int + 1, 32);
                vstd::arithmetic::mul::lemma_mul_is_commutative(num as int, 32);
            }
            let off = pos * 32;
            let ghost slot = slot_bytes(s, pos as int);
            let b0 = self.data[off];
            proof {
                assert(slot[0] == s[off as int]);
            }
            if b0 == 0 {
                self.done = true;
                return None;
            }
            if b0 == 0xE5 {
                self.pos = pos + 1;
                continue;
            }
            let attr = self.data[off + 11];
            proof {
                assert(slot[11] == s[off + 11]);
            }
            if attr == 0x0F {
                let p = b0 & 0x1F;
                let ghost st_old = staging@;
                if 1 <= p && p <= 31 {
                    let base = (p - 1) as usize * 13;
                    let mut k: usize = 0;
                    while k < 13
                        invariant
                            k <= 13,
                            base + 13 <= 403,
                            staging@.len() == 403,
                            st_old.len() == 403,
                            off + 32 <= s.len(),
                            s.len() <= usize::MAX,
                            self.data@ == s,
                            forall|i: int|
                                0 <= i < k ==> staging@[base + i] == lfn_slot_units(slot)[i],
                            forall|i: int|
                                0 <= i < 403 && !(base <= i < base + k) ==> staging@[i]
                                    == st_old[i],
                            slot == slot_bytes(s, pos as int),
                            pos as int * 32 == off,
                            32 * (pos as int) + 32 <= s.len(),
                        decreases 13 - k,
                    {
                        let uoff = if k < 5 {
                            1 + 2 * k
                        } else if k < 11 {
                            14 + 2 * (k - 5)
                        } else {
                            28 + 2 * (k - 11)
                        };
                        let u = le16_at(self.data.as_slice(), off + uoff);
                        proof {
                            lemma_slot_le16(s, pos as int, uoff as int);
                        }
                        staging[base + k] = u;
                        k += 1;
                    }
                    proof {
                        assert(staging@ =~= apply_lfn(slot, st_old));
                    }
                } else {
                    proof {
                        assert(staging@ =~= apply_lfn(slot, st_old));
                    }
                }
                has_lfn = true;
                self.pos = pos + 1;
                continue;
            }
            // A regular record: emit one entry.
            let reg = VFatRegularDirEntry::from_slot(&self.data, off);
            let name_opt = if has_lfn {
                lfn_name(&staging)
            } else {
                short_name(&self.data, off)
            };
            proof {
                assert(slot =~= s.subrange(off as int, off + 32));
            }
            match name_opt {
                None => {
                    self.done = true;
                    return None;
                },
                Some(name_str) => {
                    let cluster = reg.cluster_number();
                    let metadata = reg.metadata();
                    proof {
                        lemma_slot_le16(s, pos as int, 14);
                        lemma_slot_le16(s, pos as int, 16);
                        lemma_slot_le16(s, pos as int, 18);
                        lemma_slot_le16(s, pos as int, 20);
                        lemma_slot_le16(s, pos as int, 22);
                        lemma_slot_le16(s, pos as int, 24);
                        lemma_slot_le16(s, pos as int, 26);
                        lemma_slot_le32(s, pos as int, 28);
                    }
                    let e = if reg.attr.directory() {
                        Entry::EntryDir(
                            Dir { name: name_str, start_cluster: cluster, metadata },
                        )
                    } else {
                        Entry::EntryFile(
                            File {
                                name: name_str,
                                start_cluster: cluster,
                                metadata,
                                size: reg.file_size,
                                cursor: 0,
                            },
                        )
                    };
                    self.pos = pos + 1;
                    proof {
                        let units = slot_name_units(slot, staging@, has_lfn).unwrap();
                        let nm = utf16_decode(units).unwrap();
                        assert(stream0 == seq![spec_slot_info(slot, nm)] + entries_rec(
                            s,
                            self.pos as int,
                            zero_staging(),
                            false,
                        ));
                        assert(stream0[0] == spec_slot_info(slot, nm));
                        assert(stream0.skip(1) =~= entries_rec(
                            s,
                            self.pos as int,
                            zero_staging(),
                            false,
                        ));
                        assert(entry_view(e) == spec_slot_info(slot, nm));
                    }
                    return Some(e);
                },
            }
        }
        self.done = true;
        None
    }
}

} // verus!
