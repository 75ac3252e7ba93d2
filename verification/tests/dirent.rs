use hadris_fat::dirent::{encode_long, ShortEntry, Slot};
use hadris_fat::kind::FatKind;
use hadris_fat::lfn::{unpack, UNITS_PER_ENTRY};
use hadris_fat::raw::{
    DirEntryAttrFlags, RawFileEntry, RawLfnEntry, ATTR_ARCHIVE, ATTR_DIRECTORY, ATTR_HIDDEN,
    ATTR_LONG_NAME, ATTR_VOLUME_ID,
};

fn short(name: &[u8; 11], attr: u8) -> [u8; 32] {
    let mut raw = [0u8; 32];
    raw[..11].copy_from_slice(name);
    raw[11] = attr;
    raw
}

#[test]
fn classifies_slots() {
    assert_eq!(Slot::parse(&[0; 32]), Slot::End);
    let mut free = short(b"FILE    TXT", ATTR_ARCHIVE);
    free[0] = 0xE5;
    assert_eq!(Slot::parse(&free), Slot::Free);
    let mut long = [0xFFu8; 32];
    long[0] = 0x41;
    long[11] = ATTR_LONG_NAME;
    long[13] = 0x5A;
    let Slot::Long(entry) = Slot::parse(&long) else {
        panic!("long entry")
    };
    assert_eq!((entry.sequence, entry.checksum), (0x41, 0x5A));
}

#[test]
fn decodes_short_fields() {
    let mut raw = short(b"\x05BC     TXT", ATTR_ARCHIVE);
    raw[12] = 0x18;
    raw[20..22].copy_from_slice(&0x0001u16.to_le_bytes());
    raw[26..28].copy_from_slice(&0x0002u16.to_le_bytes());
    raw[28..32].copy_from_slice(&1234u32.to_le_bytes());
    let Slot::Short(entry) = Slot::parse(&raw) else {
        panic!("short entry")
    };
    assert_eq!(entry.name[0], 0x05);
    assert_eq!(entry.nt_case, 0x18);
    assert_eq!(entry.size, 1234);
    assert_eq!(entry.first_cluster(FatKind::Fat32), 0x0001_0002);
    assert_eq!(entry.first_cluster(FatKind::Fat16), 2);
    assert!(entry.is_visible() && !entry.is_dir());
}

#[test]
fn short_entries_round_trip() {
    let mut entry = ShortEntry::new(*b"\x05BC     TXT", ATTR_ARCHIVE);
    entry.nt_case = 0x08;
    entry.created_tenths = 7;
    entry.created_time = 0x1234;
    entry.created_date = 0x5678;
    entry.accessed_date = 0x9ABC;
    entry.modified_time = 0xDEF0;
    entry.modified_date = 0x1357;
    entry.size = 0x0102_0304;
    entry.set_first_cluster(FatKind::Fat32, 0x0ABC_DEF1);
    assert_eq!(Slot::parse(&entry.encode()), Slot::Short(entry));
    assert_eq!(entry.first_cluster(FatKind::Fat32), 0x0ABC_DEF1);
    entry.set_first_cluster(FatKind::Fat16, 9);
    assert_eq!(entry.first_cluster(FatKind::Fat16), 9);
    assert_eq!(entry.encode()[20..22], 0x0ABCu16.to_le_bytes());
}

#[test]
fn long_entries_round_trip() {
    let units: [u16; UNITS_PER_ENTRY] = core::array::from_fn(|i| 0x100 + i as u16);
    let raw = encode_long(0x42, 0x99, &units);
    let Slot::Long(entry) = Slot::parse(&raw) else {
        panic!("long entry")
    };
    assert_eq!((entry.sequence, entry.checksum), (0x42, 0x99));
    assert_eq!(
        unpack(&entry.name1, &entry.name2, &entry.name3),
        (units, UNITS_PER_ENTRY)
    );
    assert_eq!(raw[12], 0);
    assert_eq!(raw[26..28], [0, 0]);
}

#[test]
fn dot_label_and_directory() {
    let Slot::Short(dot) = Slot::parse(&short(b"..         ", ATTR_DIRECTORY)) else {
        panic!("short entry")
    };
    assert!(dot.is_dot() && dot.is_dot_dot() && dot.is_dir() && !dot.is_visible());
    let Slot::Short(label) = Slot::parse(&short(b"HADRIS     ", ATTR_VOLUME_ID)) else {
        panic!("short entry")
    };
    assert!(label.is_label() && !label.is_visible());
}

#[test]
fn hidden_entries_are_not_visible() {
    let Slot::Short(hidden) = Slot::parse(&short(b"SECRET     ", ATTR_HIDDEN)) else {
        panic!("short entry")
    };
    assert!(hidden.is_visible());
    let Slot::Short(plain) = Slot::parse(&short(b"PLAIN      ", ATTR_ARCHIVE)) else {
        panic!("short entry")
    };
    assert!(plain.is_visible() && !plain.is_dot() && !plain.is_label());
}

#[test]
fn raw_entries_read_their_fields() {
    let mut raw = short(b"README  TXT", ATTR_ARCHIVE);
    raw[26] = 5;
    let entry = RawFileEntry::from_bytes(&raw);
    assert_eq!(&entry.name, b"README  TXT");
    assert_eq!(entry.attributes, ATTR_ARCHIVE);
    let units: [u16; UNITS_PER_ENTRY] = core::array::from_fn(|i| 0x61 + i as u16);
    let long = encode_long(0x41, 0x33, &units);
    let lfn = RawLfnEntry::from_bytes(&long);
    assert_eq!(lfn.to_bytes(), long);
    assert_eq!(lfn.checksum, 0x33);
}

#[test]
fn volume_label_attributes() {
    let label = DirEntryAttrFlags::from_bits_truncate(ATTR_VOLUME_ID);
    assert!(label.is_volume_label_entry());
    let long = DirEntryAttrFlags::from_bits_truncate(ATTR_LONG_NAME);
    assert!(!long.is_volume_label_entry());
    let dir = DirEntryAttrFlags::from_bits_truncate(ATTR_DIRECTORY | 0xC0);
    assert_eq!(dir.bits(), ATTR_DIRECTORY);
    assert!(dir.contains(DirEntryAttrFlags::from_bits_truncate(ATTR_DIRECTORY)));
}
