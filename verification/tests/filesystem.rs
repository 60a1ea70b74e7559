//! End-to-end scenarios over a synthetic FAT32 image.

use fat32::cluster::Cluster;
use fat32::device::RamDisk;
use fat32::dir::DirEntryIter;
use fat32::entry::Entry;
use fat32::file::SeekFrom;
use fat32::io;
use fat32::vfat::VFat;

const SECTOR: usize = 512;
const EOC: u32 = 0x0FFF_FFF8;

fn le16w(b: &mut [u8], off: usize, v: u16) {
    b[off] = v as u8;
    b[off + 1] = (v >> 8) as u8;
}

fn le32w(b: &mut [u8], off: usize, v: u32) {
    b[off] = v as u8;
    b[off + 1] = (v >> 8) as u8;
    b[off + 2] = (v >> 16) as u8;
    b[off + 3] = (v >> 24) as u8;
}

fn reg_entry(name: &[u8], ext: &[u8], attr: u8, cluster: u32, size: u32) -> Vec<u8> {
    let mut e = vec![0u8; 32];
    for i in 0..8 {
        e[i] = if i < name.len() { name[i] } else { 0x20 };
    }
    for i in 0..3 {
        e[8 + i] = if i < ext.len() { ext[i] } else { 0x20 };
    }
    e[11] = attr;
    // creation time 13:45:28, creation date 2024-05-15
    le16w(&mut e, 14, (13 << 11) | (45 << 5) | (28 / 2));
    le16w(&mut e, 16, ((2024 - 1980) << 9) | (5 << 5) | 15);
    le16w(&mut e, 18, ((2023 - 1980) << 9) | (1 << 5) | 2);
    le16w(&mut e, 20, (cluster >> 16) as u16);
    le16w(&mut e, 22, (9 << 11) | (30 << 5) | (10 / 2));
    le16w(&mut e, 24, ((2025 - 1980) << 9) | (12 << 5) | 31);
    le16w(&mut e, 26, cluster as u16);
    le32w(&mut e, 28, size);
    e
}

fn lfn_entry(seq: u8, units: &[u16]) -> Vec<u8> {
    assert_eq!(units.len(), 13);
    let mut e = vec![0u8; 32];
    e[0] = seq;
    e[11] = 0x0F;
    for k in 0..5 {
        le16w(&mut e, 1 + 2 * k, units[k]);
    }
    for k in 0..6 {
        le16w(&mut e, 14 + 2 * k, units[5 + k]);
    }
    for k in 0..2 {
        le16w(&mut e, 28 + 2 * k, units[11 + k]);
    }
    e
}

/// Physical sector where cluster `c` begins: partition start 1, reserved
/// 32, two FATs of 256 sectors, 8 sectors per cluster.
fn cl_phys(c: u32) -> usize {
    1 + 544 + ((c as usize) - 2) * 8
}

fn put(secs: &mut [Vec<u8>], phys: usize, off: usize, bytes: &[u8]) {
    let mut s = phys;
    let mut o = off;
    for &b in bytes {
        if o == SECTOR {
            s += 1;
            o = 0;
        }
        secs[s][o] = b;
        o += 1;
    }
}

/// A small FAT32 image. The root directory holds README.TXT (cluster 3,
/// 30 bytes) and DIR1 (cluster 4), with a deleted slot between them.
/// DIR1 holds SUB (cluster 8), a long-named file (cluster 10),
/// BIGFILE.BIN (clusters 5 -> 6 -> 7, 12288 bytes) and BADCHAIN.BIN
/// (cluster 11, whose chain runs into a bad cluster 12). SUB holds
/// NOTES.MD (cluster 9, 6 bytes).
fn build_image() -> Vec<Vec<u8>> {
    let mut secs = vec![vec![0u8; SECTOR]; 640];
    // Master boot record: one FAT32 partition at sector 1.
    secs[0][446] = 0x00;
    secs[0][446 + 4] = 0x0C;
    le32w(&mut secs[0], 446 + 8, 1);
    le32w(&mut secs[0], 446 + 12, 65535);
    secs[0][510] = 0x55;
    secs[0][511] = 0xAA;
    // BIOS parameter block at the partition's first sector.
    le16w(&mut secs[1], 11, 512);
    secs[1][13] = 8;
    le16w(&mut secs[1], 14, 32);
    secs[1][16] = 2;
    le32w(&mut secs[1], 32, 65536);
    le32w(&mut secs[1], 36, 256);
    le32w(&mut secs[1], 44, 2);
    secs[1][510] = 0x55;
    secs[1][511] = 0xAA;
    // First FAT at physical sector 33.
    let fat: &mut [u8] = &mut secs[33];
    le32w(fat, 4 * 2, EOC); // root directory
    // The top four bits of a FAT entry are reserved; set them to show
    // they are ignored on read.
    le32w(fat, 4 * 3, 0xF000_0000 | EOC); // README.TXT
    le32w(fat, 4 * 4, EOC); // DIR1
    le32w(fat, 4 * 5, 6); // BIGFILE.BIN ...
    le32w(fat, 4 * 6, 7);
    le32w(fat, 4 * 7, EOC);
    le32w(fat, 4 * 8, EOC); // SUB
    le32w(fat, 4 * 9, EOC); // NOTES.MD
    le32w(fat, 4 * 10, EOC); // the long-named file
    le32w(fat, 4 * 11, 12); // BADCHAIN.BIN ...
    le32w(fat, 4 * 12, 0x0FFF_FFF7); // ... runs into a bad cluster
    // Root directory, cluster 2.
    let mut root = Vec::new();
    root.extend(reg_entry(b"README", b"TXT", 0x20, 3, 30));
    let mut deleted = reg_entry(b"GONE", b"TMP", 0x20, 13, 1);
    deleted[0] = 0xE5;
    root.extend(deleted);
    root.extend(reg_entry(b"DIR1", b"", 0x10, 4, 0));
    put(&mut secs, cl_phys(2), 0, &root);
    // README.TXT contents.
    put(&mut secs, cl_phys(3), 0, b"Hello FAT32! This is a test.\r\n");
    // DIR1, cluster 4.
    let long_name = "Long File Name With Spaces.txt";
    let mut units: Vec<u16> = long_name.encode_utf16().collect();
    units.push(0x0000);
    while units.len() < 39 {
        units.push(0xFFFF);
    }
    let mut dir1 = Vec::new();
    dir1.extend(reg_entry(b"SUB", b"", 0x10, 8, 0));
    dir1.extend(lfn_entry(0x43, &units[26..39]));
    dir1.extend(lfn_entry(0x02, &units[13..26]));
    dir1.extend(lfn_entry(0x01, &units[0..13]));
    dir1.extend(reg_entry(b"LONGFI~1", b"TXT", 0x20, 10, 5));
    dir1.extend(reg_entry(b"BIGFILE", b"BIN", 0x20, 5, 12288));
    dir1.extend(reg_entry(b"BADCHAIN", b"BIN", 0x20, 11, 8192));
    dir1.extend(reg_entry(b"OVERSIZE", b"BIN", 0x20, 9, 20000));
    put(&mut secs, cl_phys(4), 0, &dir1);
    // SUB, cluster 8.
    put(&mut secs, cl_phys(8), 0, &reg_entry(b"NOTES", b"MD", 0x20, 9, 6));
    // NOTES.MD and the long-named file.
    put(&mut secs, cl_phys(9), 0, b"notes\n");
    put(&mut secs, cl_phys(10), 0, b"hello");
    // BIGFILE.BIN: three clusters with distinct fill bytes.
    for (ci, fill) in [(5u32, 0x55u8), (6, 0x66), (7, 0x77)] {
        for s in 0..8 {
            for o in 0..SECTOR {
                secs[cl_phys(ci) + s][o] = fill;
            }
        }
    }
    secs
}

fn mount() -> VFat<RamDisk> {
    let disk = RamDisk::new(build_image(), SECTOR).expect("well-formed image");
    VFat::from(disk).expect("mountable image")
}

fn list_names(fs: &mut VFat<RamDisk>, path: &str) -> Vec<String> {
    let dir = match fs.open(path).expect("directory exists") {
        Entry::EntryDir(d) => d,
        Entry::EntryFile(_) => panic!("expected a directory"),
    };
    let mut it = dir.entries(fs).expect("directory readable");
    let mut names = Vec::new();
    while let Some(e) = it.next() {
        names.push(e.name().to_string());
    }
    names
}

#[test]
fn mount_and_list_root() {
    let mut fs = mount();
    assert_eq!(fs.bytes_per_sector(), 512);
    assert_eq!(fs.sectors_per_cluster(), 8);
    assert_eq!(fs.root_cluster().get(), 2);
    let names = list_names(&mut fs, "/");
    assert_eq!(names, vec!["README.TXT".to_string(), "DIR1".to_string()]);
}

#[test]
fn read_small_file() {
    let mut fs = mount();
    let entry = fs.open("/README.TXT").expect("file exists");
    let mut file = entry.into_file().expect("a file");
    assert_eq!(file.size(), 30);
    let mut buf = [0u8; 32];
    let n = file.read(&mut fs, &mut buf).expect("readable");
    assert_eq!(n, 30);
    assert_eq!(&buf[..30], b"Hello FAT32! This is a test.\r\n");
    assert_eq!(file.cursor, 30);
    let n2 = file.read(&mut fs, &mut buf).expect("readable at the end");
    assert_eq!(n2, 0);
}

#[test]
fn read_file_in_two_pieces() {
    let mut fs = mount();
    let mut file = fs.open("/README.TXT").expect("file exists").into_file().unwrap();
    let mut buf = [0u8; 12];
    assert_eq!(file.read(&mut fs, &mut buf).unwrap(), 12);
    assert_eq!(&buf, b"Hello FAT32!");
    let mut rest = [0u8; 32];
    assert_eq!(file.read(&mut fs, &mut rest).unwrap(), 18);
    assert_eq!(&rest[..18], b" This is a test.\r\n");
}

#[test]
fn seek_then_read() {
    let mut fs = mount();
    let mut file = fs.open("/README.TXT").expect("file exists").into_file().unwrap();
    assert_eq!(file.seek(SeekFrom::Start(6)).unwrap(), 6);
    let mut buf = [0u8; 5];
    assert_eq!(file.read(&mut fs, &mut buf).unwrap(), 5);
    assert_eq!(&buf, b"FAT32");
    assert_eq!(file.seek(SeekFrom::Current(-5)).unwrap(), 6);
    assert_eq!(file.seek(SeekFrom::End(0)).unwrap(), 30);
    assert_eq!(file.seek(SeekFrom::End(1)), Err(io::Error::InvalidInput));
    assert_eq!(file.seek(SeekFrom::Start(31)), Err(io::Error::InvalidInput));
}

#[test]
fn lfn_reassembly() {
    let mut fs = mount();
    let names = list_names(&mut fs, "/DIR1");
    assert!(names.contains(&"Long File Name With Spaces.txt".to_string()));
    assert!(!names.contains(&"LONGFI~1.TXT".to_string()));
    let entry = fs.open("/DIR1/Long File Name With Spaces.txt").expect("long name resolves");
    assert_eq!(entry.name(), "Long File Name With Spaces.txt");
}

#[test]
fn deep_path() {
    let mut fs = mount();
    let entry = fs.open("/DIR1/SUB/NOTES.MD").expect("nested file exists");
    let mut file = entry.into_file().expect("a file");
    let mut buf = [0u8; 6];
    assert_eq!(file.read(&mut fs, &mut buf).unwrap(), 6);
    assert_eq!(&buf, b"notes\n");
    assert_eq!(fs.open("/DIR1/MISSING").unwrap_err(), io::Error::NotFound);
    assert_eq!(fs.open("/README.TXT/X").unwrap_err(), io::Error::NotFound);
}

#[test]
fn case_insensitive_open() {
    let mut fs = mount();
    let entry = fs.open("/readme.txt").expect("case-folded name resolves");
    assert_eq!(entry.name(), "README.TXT");
    let entry2 = fs.open("/dir1/sub/notes.md").expect("every component folds");
    assert_eq!(entry2.name(), "NOTES.MD");
}

#[test]
fn case_insensitive_find() {
    let mut fs = mount();
    let root = fs.open("/").unwrap().into_dir().unwrap();
    for q in ["FOO.TXT", "foo.txt", "Foo.Txt"] {
        assert_eq!(root.find(&mut fs, q).unwrap_err(), io::Error::NotFound);
    }
    for q in ["README.TXT", "readme.txt", "Readme.Txt"] {
        let e = root.find(&mut fs, q).expect("matches regardless of case");
        assert_eq!(e.name(), "README.TXT");
    }
}

#[test]
fn cluster_chain_crossing() {
    let mut fs = mount();
    let entry = fs.open("/DIR1/BIGFILE.BIN").expect("file exists");
    let mut file = entry.into_file().expect("a file");
    assert_eq!(file.size(), 12288);
    let mut buf = vec![0u8; 12288];
    assert_eq!(file.read(&mut fs, &mut buf).unwrap(), 12288);
    assert!(buf[..4096].iter().all(|&b| b == 0x55));
    assert!(buf[4096..8192].iter().all(|&b| b == 0x66));
    assert!(buf[8192..].iter().all(|&b| b == 0x77));
}

#[test]
fn read_chain_returns_whole_chain() {
    let mut fs = mount();
    let mut buf = Vec::new();
    let n = fs.read_chain(Cluster::from(5), &mut buf).expect("a valid chain");
    assert_eq!(n, 12288);
    assert_eq!(buf.len(), 12288);
    assert!(buf[..4096].iter().all(|&b| b == 0x55));
    assert!(buf[8192..].iter().all(|&b| b == 0x77));
}

#[test]
fn read_cluster_reads_whole_sectors() {
    let mut fs = mount();
    let mut buf = vec![0u8; 512];
    let n = fs.read_cluster(Cluster::from(3), 0, &mut buf).expect("readable");
    assert_eq!(n, 512);
    assert_eq!(&buf[..30], b"Hello FAT32! This is a test.\r\n");
    // A buffer shorter than a sector reads no whole sector at all.
    let mut tiny = vec![0u8; 100];
    assert_eq!(fs.read_cluster(Cluster::from(3), 0, &mut tiny).unwrap(), 0);
}

#[test]
fn bad_chain_yields_error() {
    let mut fs = mount();
    let entry = fs.open("/DIR1/BADCHAIN.BIN").expect("the entry itself resolves");
    let mut file = entry.into_file().expect("a file");
    let mut buf = [0u8; 16];
    assert_eq!(file.read(&mut fs, &mut buf), Err(io::Error::Other));
    let mut chain = Vec::new();
    assert_eq!(fs.read_chain(Cluster::from(11), &mut chain), Err(io::Error::Other));
}

#[test]
fn root_path_resolves_to_root_dir() {
    let mut fs = mount();
    for p in ["/", "", "//", "/./", "/.."] {
        let entry = fs.open(p).expect("the root resolves");
        assert_eq!(entry.name(), "/");
        let dir = entry.into_dir().expect("a directory");
        assert_eq!(dir.start_cluster.get(), 2);
    }
}

#[test]
fn iterator_stops_at_end_slot() {
    let mut it = DirEntryIter::new(vec![0u8; 64]);
    assert!(it.next().is_none());
    assert!(it.next().is_none());
}

#[test]
fn lfn_records_converge_in_any_order() {
    // The same long name with its records permuted: each record lands at
    // its own position in the staging buffer, so the order is immaterial.
    let long_name = "Long File Name With Spaces.txt";
    let mut units: Vec<u16> = long_name.encode_utf16().collect();
    units.push(0x0000);
    while units.len() < 39 {
        units.push(0xFFFF);
    }
    let mut data = Vec::new();
    data.extend(lfn_entry(0x01, &units[0..13]));
    data.extend(lfn_entry(0x43, &units[26..39]));
    data.extend(lfn_entry(0x02, &units[13..26]));
    data.extend(reg_entry(b"LONGFI~1", b"TXT", 0x20, 10, 5));
    let mut it = DirEntryIter::new(data);
    let e = it.next().expect("one entry");
    assert_eq!(e.name(), long_name);
    assert!(it.next().is_none());
}

#[test]
fn iterator_skips_deleted_slots() {
    let mut data = reg_entry(b"A", b"", 0x20, 3, 1);
    data[0] = 0xE5;
    data.extend(reg_entry(b"B", b"TXT", 0x20, 4, 2));
    let mut it = DirEntryIter::new(data);
    let first = it.next().expect("one live entry");
    assert_eq!(first.name(), "B.TXT");
    assert!(it.next().is_none());
}

#[test]
fn entry_metadata_fields() {
    let mut fs = mount();
    let entry = fs.open("/README.TXT").unwrap();
    let m = entry.metadata();
    let c = m.created();
    assert_eq!(c.year(), 2024);
    assert_eq!(c.month(), 5);
    assert_eq!(c.day(), 15);
    assert_eq!(c.hour(), 13);
    assert_eq!(c.minute(), 45);
    assert_eq!(c.second(), 28);
    let a = m.accessed();
    assert_eq!(a.year(), 2023);
    assert_eq!(a.hour(), 0);
    let md = m.modified();
    assert_eq!(md.year(), 2025);
    assert_eq!(md.month(), 12);
    assert_eq!(md.day(), 31);
    assert!(!m.read_only());
    assert!(!m.hidden());
}

#[test]
fn mbr_decoding_errors() {
    let mut secs = build_image();
    secs[0][510] = 0;
    let disk = RamDisk::new(secs, SECTOR).unwrap();
    assert!(matches!(VFat::from(disk), Err(fat32::error::Error::BadSignature)));

    let mut secs2 = build_image();
    secs2[0][446] = 0x7F; // invalid boot indicator on the first entry
    let disk2 = RamDisk::new(secs2, SECTOR).unwrap();
    assert!(matches!(
        VFat::from(disk2),
        Err(fat32::error::Error::UnknownBootIndicator(0))
    ));

    let mut secs3 = build_image();
    secs3[0][446 + 4] = 0x83; // no FAT32 partition type
    let disk3 = RamDisk::new(secs3, SECTOR).unwrap();
    assert!(matches!(VFat::from(disk3), Err(fat32::error::Error::NotFound)));

    let mut secs4 = build_image();
    secs4[1][511] = 0; // BPB signature
    let disk4 = RamDisk::new(secs4, SECTOR).unwrap();
    assert!(matches!(VFat::from(disk4), Err(fat32::error::Error::BadSignature)));
}

#[test]
fn mount_errors_from_the_device() {
    // An empty device: even the MBR read fails, with the device's error.
    let disk = RamDisk::new(Vec::new(), SECTOR).unwrap();
    assert!(matches!(
        VFat::from(disk),
        Err(fat32::error::Error::Io(io::Error::InvalidInput))
    ));
    // A partition whose first sector lies beyond the device.
    let mut secs = build_image();
    le32w(&mut secs[0], 446 + 8, 5000);
    let disk2 = RamDisk::new(secs, SECTOR).unwrap();
    assert!(matches!(
        VFat::from(disk2),
        Err(fat32::error::Error::Io(io::Error::InvalidInput))
    ));
}

#[test]
fn mount_rejects_unusable_geometry() {
    // A logical sector too small to hold a FAT entry.
    let mut secs = build_image();
    le16w(&mut secs[1], 11, 2);
    let disk = RamDisk::new(secs, SECTOR).unwrap();
    assert!(matches!(
        VFat::from(disk),
        Err(fat32::error::Error::Io(io::Error::InvalidInput))
    ));
    // A logical sector that is not a multiple of the device's.
    let mut secs2 = build_image();
    le16w(&mut secs2[1], 11, 768);
    let disk2 = RamDisk::new(secs2, SECTOR).unwrap();
    assert!(matches!(
        VFat::from(disk2),
        Err(fat32::error::Error::Io(io::Error::InvalidInput))
    ));
}

#[test]
fn oversized_file_reports_unexpected_eof() {
    // OVERSIZE.BIN claims more bytes than its chain can hold: a read
    // that would run past the chain reports an early end of file.
    let mut fs = mount();
    let mut file = fs.open("/DIR1/OVERSIZE.BIN").unwrap().into_file().unwrap();
    assert_eq!(file.size(), 20000);
    let mut buf = vec![0u8; 5000];
    assert_eq!(file.read(&mut fs, &mut buf), Err(io::Error::UnexpectedEof));
}

#[test]
fn write_is_unimplemented() {
    let mut fs = mount();
    let mut file = fs.open("/README.TXT").unwrap().into_file().unwrap();
    assert_eq!(file.write(b"xyz"), Err(io::Error::Unimplemented));
    assert_eq!(file.flush(), Err(io::Error::Unimplemented));
    assert_eq!(file.sync(), Err(io::Error::Unimplemented));
}
