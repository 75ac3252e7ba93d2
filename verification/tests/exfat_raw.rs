use hadris_fat::exfat::raw::{
    BitmapEntry, BootSector, FileEntry, LabelEntry, NameEntry, StreamEntry, UpcaseEntry,
};
use hadris_fat::exfat::set::ENTRY_SIZE;
use std::mem::size_of;

#[test]
fn layouts_have_their_sizes() {
    assert_eq!(size_of::<BootSector>(), 512);
    for size in [
        size_of::<FileEntry>(),
        size_of::<StreamEntry>(),
        size_of::<NameEntry>(),
        size_of::<BitmapEntry>(),
        size_of::<UpcaseEntry>(),
        size_of::<LabelEntry>(),
    ] {
        assert_eq!(size, ENTRY_SIZE);
    }
}

fn sample() -> [u8; 32] {
    let mut raw = [0u8; 32];
    for (i, b) in raw.iter_mut().enumerate() {
        *b = (i as u8).wrapping_mul(37).wrapping_add(11);
    }
    raw
}

#[test]
fn stream_entry_fields_are_little_endian() {
    let mut raw = [0u8; 32];
    raw[0] = 0xC0;
    raw[1] = 0x03;
    raw[3] = 5;
    raw[4..6].copy_from_slice(&0xBEEFu16.to_le_bytes());
    raw[8..16].copy_from_slice(&0x0102_0304_0506_0708u64.to_le_bytes());
    raw[20..24].copy_from_slice(&77u32.to_le_bytes());
    raw[24..32].copy_from_slice(&4096u64.to_le_bytes());
    let e = StreamEntry::from_bytes(&raw);
    assert_eq!(e.entry_type, 0xC0);
    assert_eq!(e.general_secondary_flags, 0x03);
    assert_eq!(e.name_length, 5);
    assert_eq!(e.name_hash, 0xBEEF);
    assert_eq!(e.valid_data_length, 0x0102_0304_0506_0708);
    assert_eq!(e.first_cluster, 77);
    assert_eq!(e.data_length, 4096);
    assert_eq!(e.to_bytes(), raw);
}

#[test]
fn entries_write_back_the_bytes_they_read() {
    let raw = sample();
    assert_eq!(FileEntry::from_bytes(&raw).to_bytes(), raw);
    assert_eq!(StreamEntry::from_bytes(&raw).to_bytes(), raw);
    assert_eq!(NameEntry::from_bytes(&raw).to_bytes(), raw);
    assert_eq!(BitmapEntry::from_bytes(&raw).to_bytes(), raw);
    assert_eq!(UpcaseEntry::from_bytes(&raw).to_bytes(), raw);
    assert_eq!(LabelEntry::from_bytes(&raw).to_bytes(), raw);
    let name = NameEntry::from_bytes(&raw);
    assert_eq!(name.file_name[0], u16::from_le_bytes([raw[2], raw[3]]));
    assert_eq!(name.file_name[14], u16::from_le_bytes([raw[30], raw[31]]));
    let label = LabelEntry::from_bytes(&raw);
    assert_eq!(label.character_count, raw[1]);
    assert_eq!(label.reserved, [raw[24], raw[25], raw[26], raw[27], raw[28], raw[29], raw[30], raw[31]]);
}

#[test]
fn boot_sector_writes_back_the_bytes_it_read() {
    let mut raw = [0u8; 512];
    for (i, b) in raw.iter_mut().enumerate() {
        *b = (i as u8).wrapping_mul(13).wrapping_add(5);
    }
    let boot = BootSector::from_bytes(&raw);
    assert_eq!(boot.jump_boot, [raw[0], raw[1], raw[2]]);
    assert_eq!(boot.cluster_count, u32::from_le_bytes([raw[92], raw[93], raw[94], raw[95]]));
    assert_eq!(boot.bytes_per_sector_shift, raw[108]);
    assert_eq!(boot.boot_signature, u16::from_le_bytes([raw[510], raw[511]]));
    assert_eq!(boot.to_bytes(), raw);
}
