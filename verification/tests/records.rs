//! Decoding of single 32-byte directory records.

use fat32::dir::{VFatLfnDirEntry, VFatRegularDirEntry, VFatUnknownDirEntry};
use fat32::metadata::{Attributes, Date, Time};

fn le16w(b: &mut [u8], off: usize, v: u16) {
    b[off] = v as u8;
    b[off + 1] = (v >> 8) as u8;
}

fn sample_regular_slot() -> Vec<u8> {
    let mut s = vec![0u8; 32];
    s[..8].copy_from_slice(b"NOTES   ");
    s[8..11].copy_from_slice(b"MD ");
    s[11] = 0x21; // archive and read-only
    le16w(&mut s, 14, 0x1234); // creation time
    le16w(&mut s, 16, 0x2345); // creation date
    le16w(&mut s, 18, 0x3456); // access date
    le16w(&mut s, 20, 0x00AB); // cluster, high half
    le16w(&mut s, 22, 0x4567); // modification time
    le16w(&mut s, 24, 0x5678); // modification date
    le16w(&mut s, 26, 0xCDEF); // cluster, low half
    s[28] = 0x40; // size 0x140 little-endian
    s[29] = 0x01;
    s
}

#[test]
fn regular_record_decodes_fields() {
    let slot = sample_regular_slot();
    let e = VFatRegularDirEntry::from_slot(&slot, 0);
    assert_eq!(e.name, b"NOTES   ".to_vec());
    assert_eq!(e.extension, b"MD ".to_vec());
    assert_eq!(e.attr, Attributes(0x21));
    assert_eq!(e.ctime, Time(0x1234));
    assert_eq!(e.cdate, Date(0x2345));
    assert_eq!(e.adate, Date(0x3456));
    assert_eq!(e.cluster_num_high, 0x00AB);
    assert_eq!(e.mtime, Time(0x4567));
    assert_eq!(e.mdate, Date(0x5678));
    assert_eq!(e.cluster_num_low, 0xCDEF);
    assert_eq!(e.file_size, 0x140);
    // The cluster joins both halves, masked to 28 bits.
    assert_eq!(e.cluster_number().get(), 0x00AB_CDEF);
    let m = e.metadata();
    assert_eq!(m.attr, Attributes(0x21));
    assert_eq!(m.ctime.time, Time(0x1234));
    assert_eq!(m.ctime.date, Date(0x2345));
    assert_eq!(m.atime.date, Date(0x3456));
    assert_eq!(m.atime.time, Time(0));
    assert_eq!(m.mtime.time, Time(0x4567));
    assert_eq!(m.mtime.date, Date(0x5678));
}

#[test]
fn regular_record_decodes_at_an_offset() {
    let mut buf = vec![0xEEu8; 16];
    buf.extend(sample_regular_slot());
    let e = VFatRegularDirEntry::from_slot(&buf, 16);
    assert_eq!(e.file_size, 0x140);
    assert_eq!(e.cluster_number().get(), 0x00AB_CDEF);
}

#[test]
fn lfn_record_decodes_units() {
    let mut s = vec![0u8; 32];
    s[0] = 0x42; // second record, last-record flag set
    s[11] = 0x0F;
    s[12] = 0;
    s[13] = 0x99; // checksum
    for k in 0..5 {
        le16w(&mut s, 1 + 2 * k, 0x0100 + k as u16);
    }
    for k in 0..6 {
        le16w(&mut s, 14 + 2 * k, 0x0200 + k as u16);
    }
    for k in 0..2 {
        le16w(&mut s, 28 + 2 * k, 0x0300 + k as u16);
    }
    let e = VFatLfnDirEntry::from_slot(&s, 0);
    assert_eq!(e.sequence, 0x42);
    assert_eq!(e.attr, Attributes(0x0F));
    assert_eq!(e.zero_type, 0);
    assert_eq!(e.checksum, 0x99);
    assert_eq!(e.name1, vec![0x0100u16, 0x0101, 0x0102, 0x0103, 0x0104]);
    assert_eq!(e.name2, vec![0x0200u16, 0x0201, 0x0202, 0x0203, 0x0204, 0x0205]);
    assert_eq!(e.name3, vec![0x0300u16, 0x0301]);
}

#[test]
fn unknown_record_classifies() {
    let slot = sample_regular_slot();
    let u = VFatUnknownDirEntry::from_slot(&slot, 0);
    assert_eq!(u.sequence, b'N');
    assert_eq!(u.attr, Attributes(0x21));
    assert!(!u.attr.lfn());
    let mut lfn = vec![0u8; 32];
    lfn[0] = 0x01;
    lfn[11] = 0x0F;
    let u2 = VFatUnknownDirEntry::from_slot(&lfn, 0);
    assert!(u2.attr.lfn());
}
