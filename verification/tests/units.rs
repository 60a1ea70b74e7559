//! Unit checks of the decoded on-disk values.

use fat32::cluster::Cluster;
use fat32::fat::{FatEntry, Status};
use fat32::metadata::{Attributes, Date, Metadata, Time, Timestamp};

#[test]
fn cluster_from_masks_the_top_four_bits() {
    assert_eq!(Cluster::from(0xF234_5678).get(), 0x0234_5678);
    assert_eq!(Cluster::from(0x0234_5678).get(), 0x0234_5678);
    assert_eq!(Cluster::from(0xFFFF_FFFF).get(), 0x0FFF_FFFF);
    assert_eq!(Cluster::from(0).get(), 0);
}

#[test]
fn cluster_offset_counts_from_two() {
    assert_eq!(Cluster::from(2).get_offset(), 0);
    assert_eq!(Cluster::from(10).get_offset(), 8);
    assert_eq!(Cluster::from(0).get_offset(), 0);
    assert_eq!(Cluster::from(1).get_offset(), 0);
}

#[test]
fn fat_entry_status_classification() {
    assert_eq!(FatEntry(0x0000_0000).status(), Status::Free);
    assert_eq!(FatEntry(0x0000_0001).status(), Status::Reserved);
    assert_eq!(FatEntry(0x0000_0002).status(), Status::Data(Cluster::from(2)));
    assert_eq!(FatEntry(0x0FFF_FFEF).status(), Status::Data(Cluster::from(0x0FFF_FFEF)));
    assert_eq!(FatEntry(0x0FFF_FFF0).status(), Status::Reserved);
    assert_eq!(FatEntry(0x0FFF_FFF6).status(), Status::Reserved);
    assert_eq!(FatEntry(0x0FFF_FFF7).status(), Status::Bad);
    assert_eq!(FatEntry(0x0FFF_FFF8).status(), Status::Eoc(0x0FFF_FFF8));
    assert_eq!(FatEntry(0x0FFF_FFFF).status(), Status::Eoc(0x0FFF_FFFF));
}

#[test]
fn fat_entry_status_ignores_reserved_bits() {
    assert_eq!(FatEntry(0xF000_0000).status(), Status::Free);
    assert_eq!(FatEntry(0xFFFF_FFFF).status(), Status::Eoc(0x0FFF_FFFF));
    assert_eq!(FatEntry(0xA000_0005).status(), Status::Data(Cluster::from(5)));
}

#[test]
fn date_unpacks_its_fields() {
    let d = Date(((2024 - 1980) << 9) | (5 << 5) | 15);
    assert_eq!(d.year(), 2024);
    assert_eq!(d.month(), 5);
    assert_eq!(d.day(), 15);
    let zero = Date(0);
    assert_eq!(zero.year(), 1980);
    assert_eq!(zero.month(), 0);
    assert_eq!(zero.day(), 0);
}

#[test]
fn time_unpacks_its_fields() {
    let t = Time::from((13 << 11) | (45 << 5) | (28 / 2));
    assert_eq!(t.hour(), 13);
    assert_eq!(t.minute(), 45);
    assert_eq!(t.second(), 28);
}

#[test]
fn odd_seconds_round_down() {
    // 29 seconds pack into 14 two-second steps: the decoded value is 28.
    let t = Time::from((13 << 11) | (45 << 5) | (29 / 2));
    assert_eq!(t.second(), 28);
}

#[test]
fn attribute_bits() {
    assert!(Attributes(0x01).read_only());
    assert!(Attributes(0x02).hidden());
    assert!(Attributes(0x04).system());
    assert!(Attributes(0x08).volume_id());
    assert!(Attributes(0x10).directory());
    assert!(Attributes(0x20).archive());
    assert!(!Attributes(0x20).read_only());
    assert!(!Attributes(0x00).directory());
}

#[test]
fn lfn_marker_is_exact_equality() {
    assert!(Attributes(0x0F).lfn());
    assert!(!Attributes(0x2F).lfn());
    assert!(!Attributes(0x1F).lfn());
    assert!(!Attributes(0x0E).lfn());
}

#[test]
fn timestamp_and_metadata_accessors() {
    let ts = Timestamp {
        date: Date(((1999 - 1980) << 9) | (12 << 5) | 31),
        time: Time::from((23 << 11) | (59 << 5) | (58 / 2)),
    };
    assert_eq!(ts.year(), 1999);
    assert_eq!(ts.month(), 12);
    assert_eq!(ts.day(), 31);
    assert_eq!(ts.hour(), 23);
    assert_eq!(ts.minute(), 59);
    assert_eq!(ts.second(), 58);
    let m = Metadata {
        attr: Attributes(0x03),
        ctime: ts,
        atime: Timestamp { date: Date(0), time: Time::from(0) },
        mtime: ts,
    };
    assert!(m.read_only());
    assert!(m.hidden());
    assert_eq!(m.created(), ts);
    assert_eq!(m.modified(), ts);
    assert_eq!(m.accessed().year(), 1980);
}

#[test]
fn default_metadata_is_all_zero() {
    let m = Metadata::default();
    assert!(!m.read_only());
    assert!(!m.hidden());
    assert_eq!(m.created().year(), 1980);
    assert_eq!(m.modified().second(), 0);
}
