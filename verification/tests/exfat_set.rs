use hadris_fat::error::ErrorKind;
use hadris_fat::exfat::set::{
    build_set, hash_unit, name_hash, parse_set, set_attributes, set_checksum, set_stream, Alloc,
    EntrySet, SetPending,
    SetWrite, MAX_SET,
};
use hadris_fat::exfat::{le16, le32, le64};
use hadris_fat::embedded::FileType;
use hadris_fat::exfat::embedded::{Dir, Entry, Extent, Head, Node, StoredTime};
use hadris_fat::names::Attributes;

fn hello_set() -> ([[u8; 32]; MAX_SET], usize) {
    let mut primary = [0u8; 32];
    primary[4] = 0x20;
    let mut stream = [0u8; 32];
    stream[1] = 0x01;
    let mut extra = [0u8; 32];
    extra[0] = 0xE1;
    extra[1] = 0x01;
    extra[20] = 0x10;
    extra[25] = 0x10;
    let name: Vec<u16> = "Hello.txt".encode_utf16().collect();
    let mut set = [[0u8; 32]; MAX_SET];
    let count = build_set(&primary, &stream, &name, 0xBEEF, &[extra], &mut set).unwrap();
    (set, count)
}

#[test]
fn built_sets_parse_and_carry_their_checksum() {
    let (set, count) = hello_set();
    assert_eq!(count, 4);
    assert_eq!(&set[0][0..2], &[0x85, 3]);
    assert_eq!(le16(&set[0], 2), 0xf6c8);
    assert_eq!(set_checksum(&set[..count]), 0xf6c8);
    assert_eq!((set[1][0], set[1][3], le16(&set[1], 4)), (0xC0, 9, 0xBEEF));
    assert_eq!(set[2][0], 0xC1);
    assert_eq!(le16(&set[2], 2), b'H' as u16);
    assert!(parse_set(&set[..count]));
    assert!(!parse_set(&set[..count - 1]));
    let mut broken = set;
    broken[2][5] ^= 1;
    assert!(!parse_set(&broken[..count]));
    let mut no_name = set;
    no_name[2][0] = 0xC0;
    assert!(!parse_set(&no_name[..count]));
    assert!(!parse_set(&[]));
}

#[test]
fn names_too_long_for_a_set_are_refused() {
    let name = [0x41u16; 255];
    let mut set = [[7u8; 32]; MAX_SET];
    let extras = [[0xE0u8; 32]; 1];
    assert_eq!(
        build_set(&[0; 32], &[0; 32], &name, 0, &extras, &mut set),
        Err(ErrorKind::NameTooLong)
    );
    assert_eq!(set, [[7u8; 32]; MAX_SET]);
    assert_eq!(build_set(&[0; 32], &[0; 32], &name, 0, &[], &mut set), Ok(19));
}

#[test]
fn entry_sets_read_their_fields() {
    let (raw, count) = hello_set();
    let mut set = EntrySet::new();
    assert_eq!((set.offset, set.count), (0, 0));
    set.raw = raw;
    set.count = count;
    assert_eq!(set.attributes(), 0x20);
    assert!(!set.is_dir());
    assert_eq!(set.flags(), 0x01);
    assert_eq!(set.name_len(), 9);
    let expected: Vec<u16> = "Hello.txt".encode_utf16().collect();
    assert_eq!(set.name_units(), expected);
    assert_eq!(set.extras().len(), 1);
    assert_eq!(
        set.extra_allocs(),
        vec![(Alloc { first: 0x10, contiguous: false }, 4096)]
    );
    set_stream(&mut set.raw[1], Alloc { first: 7, contiguous: true }, 8192, 4000);
    assert_eq!(set.flags(), 0x03);
    assert_eq!(set.first(), 7);
    assert_eq!(set.data_len(), 8192);
    assert_eq!(set.valid_len(), 4000);
    assert_eq!(set.allocation(), Alloc { first: 7, contiguous: true });
    assert_eq!(set.raw[1][3], 9);
    set_stream(&mut set.raw[1], Alloc { first: 8, contiguous: false }, 0, 0);
    assert_eq!(set.flags(), 0x01);
    assert_eq!(le32(&set.raw[1], 20), 8);
    assert_eq!(le64(&set.raw[1], 24), 0);
}

#[test]
fn pending_writes_keep_their_offsets() {
    let p = SetPending::new(&[64, 96, 128], SetWrite::Update);
    assert_eq!(p.count, 3);
    assert_eq!(p.kind, SetWrite::Update);
    assert_eq!(&p.at[..4], &[64, 96, 128, 0]);
}

#[test]
fn file_attributes_are_set_and_kept() {
    let mut primary = [0u8; 32];
    primary[4] = 0x10;
    primary[6] = 0xAB;
    let wanted = Attributes { read_only: true, hidden: false, system: false, archive: true };
    set_attributes(&mut primary, wanted);
    assert_eq!(le16(&primary, 4), 0x31);
    assert_eq!(primary[6], 0xAB);
    set_attributes(
        &mut primary,
        Attributes { read_only: false, hidden: true, system: true, archive: false },
    );
    assert_eq!(le16(&primary, 4), 0x16);
}

#[test]
fn name_hashes_rotate_in_both_bytes() {
    let file: Vec<u16> = "FILE".encode_utf16().collect();
    assert_eq!(name_hash(&file), 0xd42e);
    let hello: Vec<u16> = "HELLO.TXT".encode_utf16().collect();
    assert_eq!(name_hash(&hello), 0x3046);
    assert_eq!(name_hash(&[]), 0);
    assert_eq!(hash_unit(0, 0x0041), 0x8020);
    assert_eq!(hash_unit(0, 0x4100), 0x0041);
}

#[test]
fn embedded_entry_sets_read_their_head() {
    let mut primary = [0u8; 32];
    primary[1] = 3;
    primary[4] = 0x21;
    let mut stream = [0u8; 32];
    stream[1] = 0x03;
    stream[8] = 100;
    stream[20] = 9;
    stream[24] = 200;
    let head = Head { primary, stream };
    assert_eq!((head.first(), head.len(), head.valid()), (9, 200, 100));
    assert!(head.contiguous());
    assert_eq!(head.as_dir().extent(5), Extent { first: 9, len: 200, contiguous: true });
    assert_eq!(Dir::root().extent(5), Extent { first: 5, len: u64::MAX, contiguous: false });
    let name: Vec<u16> = "a.txt".encode_utf16().collect();
    let node = Node::new(Dir::new(9, 4096, false), 6);
    let entry = Entry::new(&name, head, node, None);
    assert_eq!(entry.name_utf16(), &name[..]);
    assert_eq!(entry.chars().into_iter().collect::<String>(), "a.txt");
    assert_eq!(entry.file_type(), FileType::File);
    assert_eq!(entry.len(), 200);
    assert!(!entry.is_empty());
    let attrs = entry.attributes();
    assert!(attrs.read_only && attrs.archive && !attrs.hidden && !attrs.system);
    assert_eq!(entry.node().slot(), 6);
    assert_eq!(entry.next_cursor(), 10);
    let mut stream_short = stream;
    stream_short[8] = 255;
    stream_short[24] = 10;
    assert_eq!(Head { primary, stream: stream_short }.valid(), 10);
}

#[test]
fn head_metadata_holds_the_stored_fields() {
    let mut primary = [0u8; 32];
    primary[4] = 0x01;
    primary[8..12].copy_from_slice(&0x5A21_6C00u32.to_le_bytes());
    primary[12..16].copy_from_slice(&0x5A21_6C10u32.to_le_bytes());
    primary[16..20].copy_from_slice(&0x5A21_6C20u32.to_le_bytes());
    primary[20] = 150;
    primary[21] = 3;
    primary[22] = 0x84;
    primary[23] = 0x88;
    primary[24] = 0x80;
    let mut stream = [0u8; 32];
    stream[24] = 42;
    let meta = Head { primary, stream }.metadata_fields();
    assert_eq!(meta.file_type, FileType::File);
    assert_eq!(meta.len, 42);
    assert!(meta.attributes.read_only && !meta.attributes.archive);
    assert_eq!(meta.permissions, 0o444);
    assert_eq!(
        meta.created,
        StoredTime { timestamp: 0x5A21_6C00, increment: 150, utc_offset: 0x84 }
    );
    assert_eq!(
        meta.modified,
        StoredTime { timestamp: 0x5A21_6C10, increment: 3, utc_offset: 0x88 }
    );
    assert_eq!(
        meta.accessed,
        StoredTime { timestamp: 0x5A21_6C20, increment: 0, utc_offset: 0x80 }
    );
    let node = Node::new(Dir::root(), 3);
    let name: Vec<u16> = "x".encode_utf16().collect();
    assert_eq!(Entry::new(&name, Head { primary, stream }, node, None).metadata_fields(), meta);
    primary[4] = 0x10;
    let dir = Head { primary, stream }.metadata_fields();
    assert_eq!((dir.file_type, dir.len, dir.permissions), (FileType::Dir, 0, 0o755));
}
