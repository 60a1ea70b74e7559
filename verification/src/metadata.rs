//! Dates, times, attributes and metadata of directory entries.
//!
//! A FAT32 date packs `((year - 1980) << 9) | (month << 5) | day` into 16
//! bits; a time packs `(hour << 11) | (minute << 5) | (seconds / 2)`. The
//! attribute byte is a bitmap, except that the exact value 0x0F marks a
//! long-file-name record.

use vstd::prelude::*;

verus! {

/// A date as packed in FAT32 on-disk structures.
#[derive(PartialEq, Eq, Structural, Debug, Copy, Clone)]
pub struct Date(pub u16);

impl Date {
    /// The calendar year: the top 7 bits, counted from 1980.
    pub open spec fn spec_year(self) -> int {
        (self.0 >> 9) + 1980
    }

    /// The month: bits 5 to 8.
    pub open spec fn spec_month(self) -> u8 {
        ((self.0 & 0x1e0) >> 5) as u8
    }

    /// The day: the low 5 bits.
    pub open spec fn spec_day(self) -> u8 {
        (self.0 & 0x1f) as u8
    }

    /// The calendar year.
    pub fn year(&self) -> (y: usize)
        ensures
            y == self.spec_year(),
    {
        (self.0 >> 9) as usize + 1980
    }

    /// The month of the year, 1-indexed on disk.
    pub fn month(&self) -> (m: u8)
        ensures
            m == self.spec_month(),
    {
        ((self.0 & 0x1e0) >> 5) as u8
    }

    /// The day of the month, 1-indexed on disk.
    pub fn day(&self) -> (d: u8)
        ensures
            d == self.spec_day(),
    {
        (self.0 & 0x1f) as u8
    }
}

impl Default for Date {
    /// The all-zero date.
    fn default() -> (d: Date)
        ensures
            d.0 == 0,
    {
        Date(0)
    }
}

/// A time of day as packed in FAT32 on-disk structures.
#[derive(PartialEq, Eq, Structural, Debug, Copy, Clone)]
pub struct Time(pub u16);

impl Time {
    /// The hour: the top 5 bits.
    pub open spec fn spec_hour(self) -> u8 {
        (self.0 >> 11) as u8
    }

    /// The minute: bits 5 to 10.
    pub open spec fn spec_minute(self) -> u8 {
        ((self.0 & 0x7e0) >> 5) as u8
    }

    /// The second: twice the low 5 bits.
    pub open spec fn spec_second(self) -> u8 {
        ((self.0 & 0x1f) * 2) as u8
    }

    /// Wraps a raw packed time.
    pub fn from(time: u16) -> (t: Self)
        ensures
            t.0 == time,
    {
        Time(time)
    }

    /// The hour, 0 to 23 on disk.
    pub fn hour(&self) -> (h: u8)
        ensures
            h == self.spec_hour(),
    {
        (self.0 >> 11) as u8
    }

    /// The minute, 0 to 59 on disk.
    pub fn minute(&self) -> (m: u8)
        ensures
            m == self.spec_minute(),
    {
        ((self.0 & 0x7e0) >> 5) as u8
    }

    /// The second, even by construction: the field counts two-second
    /// steps.
    pub fn second(&self) -> (s: u8)
        ensures
            s == self.spec_second(),
    {
        let ghost v = self.0;
        proof {
            assert(v & 0x1f < 32) by (bit_vector);
        }
        ((self.0 & 0x1f) * 2) as u8
    }
}

impl Default for Time {
    /// The all-zero time.
    fn default() -> (t: Time)
        ensures
            t.0 == 0,
    {
        Time(0)
    }
}

/// The attribute byte of a directory entry.
#[derive(PartialEq, Eq, Structural, Debug, Copy, Clone)]
pub struct Attributes(pub u8);

impl Attributes {
    /// Whether the exact long-file-name marker value 0x0F is set.
    pub open spec fn spec_lfn(self) -> bool {
        self.0 == 0x0f
    }

    /// Whether the directory bit 0x10 is set.
    pub open spec fn spec_directory(self) -> bool {
        self.0 & 0x10 != 0
    }

    /// Whether the read-only bit 0x01 is set.
    pub fn read_only(&self) -> (r: bool)
        ensures
            r == (self.0 & 0x1 != 0),
    {
        self.0 & 0x1 != 0
    }

    /// Whether the hidden bit 0x02 is set.
    pub fn hidden(&self) -> (r: bool)
        ensures
            r == (self.0 & 0x2 != 0),
    {
        self.0 & 0x2 != 0
    }

    /// Whether the system bit 0x04 is set.
    pub fn system(&self) -> (r: bool)
        ensures
            r == (self.0 & 0x4 != 0),
    {
        self.0 & 0x4 != 0
    }

    /// Whether the volume-id bit 0x08 is set.
    pub fn volume_id(&self) -> (r: bool)
        ensures
            r == (self.0 & 0x8 != 0),
    {
        self.0 & 0x8 != 0
    }

    /// Whether the directory bit 0x10 is set.
    pub fn directory(&self) -> (r: bool)
        ensures
            r == self.spec_directory(),
    {
        self.0 & 0x10 != 0
    }

    /// Whether the archive bit 0x20 is set.
    pub fn archive(&self) -> (r: bool)
        ensures
            r == (self.0 & 0x20 != 0),
    {
        self.0 & 0x20 != 0
    }

    /// Whether the byte equals the long-file-name marker 0x0F exactly.
    pub fn lfn(&self) -> (r: bool)
        ensures
            r == self.spec_lfn(),
    {
        self.0 == 0x0f
    }
}

impl Default for Attributes {
    /// The all-clear attribute byte.
    fn default() -> (a: Attributes)
        ensures
            a.0 == 0,
    {
        Attributes(0)
    }
}

/// A date and a time of day.
#[derive(PartialEq, Eq, Structural, Debug, Copy, Clone)]
pub struct Timestamp {
    pub date: Date,
    pub time: Time,
}

impl Timestamp {
    /// The calendar year.
    pub fn year(&self) -> (y: usize)
        ensures
            y == self.date.spec_year(),
    {
        self.date.year()
    }

    /// The month of the year.
    pub fn month(&self) -> (m: u8)
        ensures
            m == self.date.spec_month(),
    {
        self.date.month()
    }

    /// The day of the month.
    pub fn day(&self) -> (d: u8)
        ensures
            d == self.date.spec_day(),
    {
        self.date.day()
    }

    /// The hour.
    pub fn hour(&self) -> (h: u8)
        ensures
            h == self.time.spec_hour(),
    {
        self.time.hour()
    }

    /// The minute.
    pub fn minute(&self) -> (m: u8)
        ensures
            m == self.time.spec_minute(),
    {
        self.time.minute()
    }

    /// The second.
    pub fn second(&self) -> (s: u8)
        ensures
            s == self.time.spec_second(),
    {
        self.time.second()
    }
}

impl Default for Timestamp {
    /// The all-zero timestamp.
    fn default() -> (t: Timestamp)
        ensures
            t.date.0 == 0 && t.time.0 == 0,
    {
        Timestamp { date: Date(0), time: Time(0) }
    }
}

/// The metadata of a directory entry: its attributes and its creation,
/// access and modification timestamps.
#[derive(PartialEq, Eq, Structural, Debug, Copy, Clone)]
pub struct Metadata {
    pub attr: Attributes,
    pub ctime: Timestamp,
    pub atime: Timestamp,
    pub mtime: Timestamp,
}

impl Metadata {
    /// Whether the entry is read-only.
    pub fn read_only(&self) -> (r: bool)
        ensures
            r == (self.attr.0 & 0x1 != 0),
    {
        self.attr.read_only()
    }

    /// Whether the entry is hidden.
    pub fn hidden(&self) -> (r: bool)
        ensures
            r == (self.attr.0 & 0x2 != 0),
    {
        self.attr.hidden()
    }

    /// The creation timestamp.
    pub fn created(&self) -> (t: Timestamp)
        ensures
            t == self.ctime,
    {
        self.ctime
    }

    /// The last-access timestamp.
    pub fn accessed(&self) -> (t: Timestamp)
        ensures
            t == self.atime,
    {
        self.atime
    }

    /// The last-modification timestamp.
    pub fn modified(&self) -> (t: Timestamp)
        ensures
            t == self.mtime,
    {
        self.mtime
    }
}

impl Default for Metadata {
    /// The all-zero metadata record.
    fn default() -> (m: Metadata)
        ensures
            m.attr.0 == 0 && m.ctime.date.0 == 0 && m.ctime.time.0 == 0 && m.atime.date.0 == 0
                && m.atime.time.0 == 0 && m.mtime.date.0 == 0 && m.mtime.time.0 == 0,
    {
        Metadata {
            attr: Attributes(0),
            ctime: Timestamp { date: Date(0), time: Time(0) },
            atime: Timestamp { date: Date(0), time: Time(0) },
            mtime: Timestamp { date: Date(0), time: Time(0) },
        }
    }
}

/// The packed form of a date: `((year - 1980) << 9) | (month << 5) | day`.
pub open spec fn spec_pack_date(y: u16, mo: u16, d: u16) -> u16 {
    (((y - 1980) as u16) << 9) | (mo << 5) | d
}

/// The packed form of a time: `(hour << 11) | (minute << 5) | (seconds / 2)`.
pub open spec fn spec_pack_time(h: u16, mi: u16, s: u16) -> u16 {
    (h << 11) | (mi << 5) | (s / 2) as u16
}

/// Packing a valid calendar date and time of day and decoding the packed
/// fields gives the original values back, except that the second — stored
/// in two-second steps — comes back rounded down to an even number.
pub proof fn lemma_timestamp_round_trip(y: u16, mo: u16, d: u16, h: u16, mi: u16, s: u16)
    requires
        1980 <= y <= 2107,
        1 <= mo <= 12,
        1 <= d <= 31,
        h <= 23,
        mi <= 59,
        s <= 59,
    ensures
        Date(spec_pack_date(y, mo, d)).spec_year() == y,
        Date(spec_pack_date(y, mo, d)).spec_month() == mo,
        Date(spec_pack_date(y, mo, d)).spec_day() == d,
        Time(spec_pack_time(h, mi, s)).spec_hour() == h,
        Time(spec_pack_time(h, mi, s)).spec_minute() == mi,
        Time(spec_pack_time(h, mi, s)).spec_second() == 2 * (s / 2),
        s % 2 == 0 ==> Time(spec_pack_time(h, mi, s)).spec_second() == s,
{
    let dd = spec_pack_date(y, mo, d);
    let tt = spec_pack_time(h, mi, s);
    assert((dd >> 9) == y - 1980 && ((dd & 0x1e0) >> 5) == mo && (dd & 0x1f) == d)
        by (bit_vector)
        requires
            dd == (((y - 1980) as u16) << 9) | (mo << 5) | d,
            1980 <= y <= 2107,
            1 <= mo <= 12,
            1 <= d <= 31,
    ;
    assert((tt >> 11) == h && ((tt & 0x7e0) >> 5) == mi && (tt & 0x1f) == s / 2)
        by (bit_vector)
        requires
            tt == (h << 11) | (mi << 5) | (s / 2) as u16,
            h <= 23,
            mi <= 59,
            s <= 59,
    ;
}

} // verus!
