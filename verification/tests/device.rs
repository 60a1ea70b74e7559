//! Checks of the block-device layer and the sector cache.

use fat32::cache::{CachedPartition, Partition};
use fat32::device::{BlockDevice, RamDisk};
use fat32::io;

fn four_sector_disk() -> RamDisk {
    let mut secs = Vec::new();
    for i in 0..4u8 {
        secs.push(vec![i + 1; 256]);
    }
    RamDisk::new(secs, 256).expect("well-formed")
}

#[test]
fn ramdisk_rejects_misshapen_sectors() {
    assert!(RamDisk::new(vec![vec![0u8; 511]], 512).is_none());
    assert!(RamDisk::new(vec![vec![0u8; 512], vec![0u8; 100]], 512).is_none());
    assert!(RamDisk::new(vec![vec![0u8; 512]], 0).is_none());
    assert!(RamDisk::new(vec![vec![0u8; 512]], 512).is_some());
    assert!(RamDisk::new(Vec::new(), 512).is_some());
}

#[test]
fn ramdisk_reads_and_writes_sectors() {
    let mut d = four_sector_disk();
    assert_eq!(d.sector_size(), 256);
    assert_eq!(d.num_sectors(), 4);
    let mut buf = vec![0u8; 256];
    assert_eq!(d.read_sector(2, &mut buf).unwrap(), 256);
    assert!(buf.iter().all(|&b| b == 3));
    // A short buffer reads only its own length.
    let mut short = vec![0u8; 10];
    assert_eq!(d.read_sector(0, &mut short).unwrap(), 10);
    assert!(short.iter().all(|&b| b == 1));
    // Out of range.
    assert_eq!(d.read_sector(4, &mut buf), Err(io::Error::InvalidInput));
    // Writes replace a whole sector.
    let fresh = vec![9u8; 256];
    assert_eq!(d.write_sector(1, &fresh).unwrap(), 256);
    assert_eq!(d.read_sector(1, &mut buf).unwrap(), 256);
    assert!(buf.iter().all(|&b| b == 9));
    // A short write buffer is refused.
    assert_eq!(d.write_sector(1, &[0u8; 8]), Err(io::Error::InvalidInput));
}

#[test]
fn ramdisk_read_all_sector_appends() {
    let mut d = four_sector_disk();
    let mut v = vec![7u8];
    assert_eq!(d.read_all_sector(1, &mut v).unwrap(), 256);
    assert_eq!(v.len(), 257);
    assert_eq!(v[0], 7);
    assert!(v[1..].iter().all(|&b| b == 2));
    assert_eq!(d.read_all_sector(9, &mut v), Err(io::Error::InvalidInput));
    assert_eq!(v.len(), 257);
}

#[test]
fn cached_partition_merges_physical_sectors() {
    // Logical sectors of 512 bytes over a device with 256-byte sectors:
    // logical 0 is physical 1 and 2 of the partition starting at 1.
    let d = four_sector_disk();
    let part = Partition { start: 1, num_sectors: 1, sector_size: 512 };
    let mut cp = CachedPartition::new(d, part);
    assert_eq!(cp.sector_size(), 512);
    assert_eq!(cp.num_sectors(), 1);
    let data = cp.get(0).expect("in range");
    assert_eq!(data.len(), 512);
    assert!(data[..256].iter().all(|&b| b == 2));
    assert!(data[256..].iter().all(|&b| b == 3));
    assert_eq!(cp.get(1), Err(io::Error::Other));
}

#[test]
fn cached_partition_read_sector_short_buffer() {
    let d = four_sector_disk();
    let part = Partition { start: 0, num_sectors: 2, sector_size: 512 };
    let mut cp = CachedPartition::new(d, part);
    // A buffer smaller than the logical sector reads exactly its length.
    let mut buf = vec![0u8; 100];
    assert_eq!(cp.read_sector(0, &mut buf).unwrap(), 100);
    assert!(buf.iter().all(|&b| b == 1));
    // A larger buffer reads one whole logical sector.
    let mut big = vec![0u8; 600];
    assert_eq!(cp.read_sector(0, &mut big).unwrap(), 512);
    assert!(big[..256].iter().all(|&b| b == 1));
    assert!(big[256..512].iter().all(|&b| b == 2));
    assert!(big[512..].iter().all(|&b| b == 0));
    assert_eq!(cp.read_sector(2, &mut buf), Err(io::Error::Other));
}

#[test]
fn cached_partition_write_stays_in_cache() {
    let d = four_sector_disk();
    let part = Partition { start: 0, num_sectors: 2, sector_size: 256 };
    let mut cp = CachedPartition::new(d, part);
    // Write the front of logical sector 1; the cache serves it back.
    assert_eq!(cp.write_sector(1, &[0xAB; 16]).unwrap(), 16);
    let data = cp.get(1).unwrap();
    assert!(data[..16].iter().all(|&b| b == 0xAB));
    assert!(data[16..].iter().all(|&b| b == 2));
    // get_mut hands out the same bytes.
    let copy = cp.get_mut(1).unwrap();
    assert_eq!(copy, data);
}

#[test]
fn cached_sector_serves_repeat_reads() {
    let d = four_sector_disk();
    let part = Partition { start: 0, num_sectors: 4, sector_size: 256 };
    let mut cp = CachedPartition::new(d, part);
    let first = cp.get(3).expect("in range");
    let second = cp.get(3).expect("a cached sector is always served");
    assert_eq!(first, second);
    let third = cp.get_mut(3).expect("a cached sector is always served");
    assert_eq!(first, third);
}

#[test]
fn mbr_parses_and_validates() {
    let mut sec0 = vec![0u8; 512];
    sec0[446] = 0x80;
    sec0[446 + 4] = 0x0B;
    sec0[446 + 8] = 42; // relative sector, little-endian
    sec0[446 + 12] = 7; // total sectors
    sec0[510] = 0x55;
    sec0[511] = 0xAA;
    let mut d = RamDisk::new(vec![sec0.clone()], 512).unwrap();
    let mbr = fat32::mbr::MasterBootRecord::from(&mut d).expect("valid");
    assert!(mbr.partition_table[0].is_fat32());
    assert_eq!(mbr.partition_table[0].relative_sector, 42);
    assert_eq!(mbr.partition_table[0].total_sectors, 7);
    assert!(!mbr.partition_table[1].is_fat32());

    let mut bad = sec0.clone();
    bad[511] = 0;
    let mut d2 = RamDisk::new(vec![bad], 512).unwrap();
    assert!(matches!(
        fat32::mbr::MasterBootRecord::from(&mut d2),
        Err(fat32::mbr::Error::BadSignature)
    ));

    let mut badboot = sec0;
    badboot[446 + 16] = 0x11; // second entry's boot indicator
    let mut d3 = RamDisk::new(vec![badboot], 512).unwrap();
    assert!(matches!(
        fat32::mbr::MasterBootRecord::from(&mut d3),
        Err(fat32::mbr::Error::UnknownBootIndicator(1))
    ));
}

#[test]
fn bpb_parses_and_validates() {
    let mut sec = vec![0u8; 512];
    sec[11] = 0;
    sec[12] = 2; // 512 bytes per sector, little-endian
    sec[13] = 4;
    sec[14] = 32;
    sec[16] = 2;
    sec[36] = 1; // sectors per FAT
    sec[44] = 9; // root cluster
    sec[510] = 0x55;
    sec[511] = 0xAA;
    let mut d = RamDisk::new(vec![sec.clone()], 512).unwrap();
    let bpb = fat32::ebpb::BiosParameterBlock::from(&mut d, 0).expect("valid");
    assert_eq!(bpb.bytes_per_sector, 512);
    assert_eq!(bpb.sectors_per_cluster, 4);
    assert_eq!(bpb.reserved_sectors, 32);
    assert_eq!(bpb.fats, 2);
    assert_eq!(bpb.sectors_per_fat(), 1);
    assert_eq!(bpb.total_logical_sectors(), 0);
    assert_eq!(bpb.root_cluster, 9);

    let mut bad = sec;
    bad[510] = 0;
    let mut d2 = RamDisk::new(vec![bad], 512).unwrap();
    assert!(matches!(
        fat32::ebpb::BiosParameterBlock::from(&mut d2, 0),
        Err(fat32::error::Error::BadSignature)
    ));
}
