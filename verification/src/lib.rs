//! A read-only FAT32 filesystem driver.
//!
//! The driver sits above a sector-addressed block device, locates the FAT32
//! partition through the master boot record, decodes the BIOS parameter
//! block, and exposes files and directories with long-file-name support.
//! Every on-disk structure is decoded field by field from little-endian
//! bytes, and each decoding step carries a contract that pins the result
//! down to the bytes it came from.

pub mod cache;
pub mod cluster;
pub mod device;
pub mod dir;
pub mod ebpb;
pub mod encoding;
pub mod entry;
pub mod error;
pub mod fat;
pub mod file;
pub mod io;
pub mod mbr;
pub mod metadata;
pub mod text;
pub mod vfat;
