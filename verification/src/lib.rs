//! Encoding, decoding and checking of FAT12, FAT16, FAT32 and exFAT on-disk
//! structures, with their contracts proved.

pub mod bytes;
pub mod kind;
pub mod boot;
pub mod exfat;
pub mod findings;
pub mod raw;
pub mod utf16;
pub mod lfn;
pub mod dirent;
pub mod layout;
pub mod format;
pub mod oem;
pub mod short_name;
pub mod name;
pub mod date;
pub mod embedded;
pub mod error;
pub mod options;
pub mod mkfs;
pub mod check;
pub mod walk;
pub mod fatfs;
pub mod names;
