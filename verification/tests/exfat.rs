use hadris_fat::error::ErrorKind;
use hadris_fat::exfat::boot::{boot_checksum, boot_sector, region_checksum};
use hadris_fat::exfat::format::{
    bitmap_byte, chain_next, root_entries, volume_id, FAT_END, RECOMMENDED_UPCASE_CHECKSUM,
};
use hadris_fat::exfat::mkfs::{plan, shift_of, Layout};
use hadris_fat::exfat::options::{ExFatOptions, VolumeLabel};
use hadris_fat::exfat::upcase::{mandatory_upcase, table_checksum, Upcase};
use hadris_fat::exfat::{le16, le32, le64};
use hadris_fat::options::Timestamp;

fn layout_64mib() -> Layout {
    plan(64 << 20, 512, &ExFatOptions::new()).unwrap()
}

#[test]
fn layouts_match_mkfs_exfat() {
    let layout = plan(64 << 20, 512, &ExFatOptions::new()).unwrap();
    assert_eq!(layout.fat_offset, 2048);
    assert_eq!(layout.heap_offset, 4096);
    assert_eq!(layout.root(), 5);
    assert_eq!(
        plan(512 << 10, 512, &ExFatOptions::new()).err(),
        Some(ErrorKind::NoSpace)
    );
    let odd = ExFatOptions::new().with_cluster_size(3000);
    assert_eq!(plan(8 << 20, 512, &odd).err(), Some(ErrorKind::InvalidInput));
}

#[test]
fn labels_are_checked() {
    let label = VolumeLabel::new("Données").unwrap();
    assert_eq!(label.to_string(), "Données");
    assert_eq!(label.as_utf16().len(), 7);
    assert_eq!(VolumeLabel::new("").err(), Some(ErrorKind::InvalidInput));
    assert_eq!(VolumeLabel::new("a/b").err(), Some(ErrorKind::InvalidInput));
    assert_eq!(
        VolumeLabel::new("abcdefghijkl").err(),
        Some(ErrorKind::NameTooLong)
    );
    assert!(VolumeLabel::new("abcdefghijk").is_ok());
}

#[test]
fn label_checks_the_twelfth_unit_before_the_length() {
    assert_eq!(
        VolumeLabel::new("abcdefghijk*").err(),
        Some(ErrorKind::InvalidInput)
    );
    assert_eq!(VolumeLabel::new("a\u{1}").err(), Some(ErrorKind::InvalidInput));
    let wide = VolumeLabel::new("\u{1F600}").unwrap();
    assert_eq!(wide.as_utf16(), &[0xD83D, 0xDE00]);
    let disk = VolumeLabel::from_disk([0x41, 0xD800, 0, 0, 0, 0, 0, 0, 0, 0, 0], 2);
    assert_eq!(disk.to_string(), "A\u{FFFD}");
    let clipped = VolumeLabel::from_disk([0x42; 11], 40);
    assert_eq!(clipped.as_utf16().len(), 11);
}

#[test]
fn options_builders_set_their_fields() {
    let o = ExFatOptions::new();
    assert_eq!(o.fat_count, 1);
    assert_eq!(o.time, Timestamp { seconds: 315_532_800, nanos: 0 });
    assert!(o.size.is_none() && o.label.is_none() && o.serial.is_none());
    let o = o
        .with_size(1 << 30)
        .with_seed(7)
        .with_serial(9)
        .with_sector_size(4096)
        .with_fat_count(2)
        .with_partition_offset(1 << 20)
        .with_alignment(8192)
        .with_time(Timestamp { seconds: 5, nanos: 6 });
    assert_eq!(o.size, Some(1 << 30));
    assert_eq!(o.seed, Some(7));
    assert_eq!(o.serial, Some(9));
    assert_eq!(o.sector_size, Some(4096));
    assert_eq!(o.fat_count, 2);
    assert_eq!(o.partition_offset, Some(1 << 20));
    assert_eq!(o.alignment, Some(8192));
    assert_eq!(o.time.seconds, 5);
}

#[test]
fn plan_small_and_two_fat_volumes() {
    let l = plan(8 << 20, 512, &ExFatOptions::new()).unwrap();
    assert_eq!(
        (l.sector_shift, l.cluster_shift, l.volume_sectors),
        (9, 12, 16384)
    );
    assert_eq!((l.fat_offset, l.fat_length, l.heap_offset), (24, 16, 40));
    assert_eq!(l.cluster_count, 2042);
    assert_eq!((l.bitmap_clusters, l.upcase_clusters), (1, 2));

    let l = plan(8 << 20, 4096, &ExFatOptions::new().with_fat_count(2)).unwrap();
    assert_eq!((l.sector_shift, l.volume_sectors), (12, 2048));
    assert_eq!((l.fat_offset, l.fat_length, l.heap_offset), (24, 2, 28));
    assert_eq!(l.cluster_count, 2018);
    assert_eq!(l.root(), 6);
    assert_eq!(l.used(), 5);

    let l = plan(300 << 20, 512, &ExFatOptions::new().with_fat_count(2)).unwrap();
    assert_eq!(l.cluster_shift, 15);
    assert_eq!((l.fat_offset, l.fat_length, l.heap_offset), (2048, 75, 4096));
    assert_eq!(l.cluster_count, 9536);
    assert_eq!(l.upcase_clusters, 1);
}

#[test]
fn plan_rejects_bad_options() {
    let base = ExFatOptions::new();
    assert_eq!(
        plan(8 << 20, 512, &base.with_fat_count(3)).err(),
        Some(ErrorKind::InvalidInput)
    );
    assert_eq!(
        plan(8 << 20, 512, &base.with_sector_size(300)).err(),
        Some(ErrorKind::InvalidInput)
    );
    assert_eq!(
        plan(8 << 20, 512, &base.with_alignment(3000)).err(),
        Some(ErrorKind::InvalidInput)
    );
    assert_eq!(
        plan(8 << 20, 4096, &base.with_cluster_size(2048)).err(),
        Some(ErrorKind::InvalidInput)
    );
    assert_eq!(
        plan(8 << 20, 512, &base.with_cluster_size(64 << 20)).err(),
        Some(ErrorKind::InvalidInput)
    );
    assert_eq!(
        plan(4 << 20, 512, &base.with_cluster_size(1 << 20)).err(),
        Some(ErrorKind::NoSpace)
    );
    let exact = plan(1 << 20, 512, &base).unwrap();
    assert_eq!(exact.cluster_count, 252);
    assert_eq!(exact.heap_offset, 32);
}

#[test]
fn shifts_of_powers_of_two() {
    assert_eq!(shift_of(1), Some(0));
    assert_eq!(shift_of(4096), Some(12));
    assert_eq!(shift_of(1 << 63), Some(63));
    assert_eq!(shift_of(0), None);
    assert_eq!(shift_of(3000), None);
}

#[test]
fn layout_offsets() {
    let l = layout_64mib();
    assert_eq!(l.sector(), 512);
    assert_eq!(l.cluster(), 4096);
    assert_eq!(l.cluster_at(2), 4096 * 512);
    assert_eq!(l.cluster_at(5), 4096 * 512 + 3 * 4096);
    assert_eq!(l.bitmap_len(), 1984);
    assert_eq!(l.bitmap_first(0), 2);
    assert_eq!(l.upcase_first(), 3);
    assert_eq!(l.used(), 4);
}

#[test]
fn boot_sector_fields() {
    let l = layout_64mib();
    let b = boot_sector(&l, 0, 0x1234_5678);
    assert_eq!(&b[0..11], b"\xEB\x76\x90EXFAT   ");
    assert!(b[11..64].iter().all(|&x| x == 0));
    assert_eq!(le64(&b, 72), 131072);
    assert_eq!(le32(&b, 80), 2048);
    assert_eq!(le32(&b, 84), 125);
    assert_eq!(le32(&b, 88), 4096);
    assert_eq!(le32(&b, 92), 15872);
    assert_eq!(le32(&b, 96), 5);
    assert_eq!(le32(&b, 100), 0x1234_5678);
    assert_eq!(le16(&b, 104), 0x0100);
    assert_eq!(&b[106..113], &[0, 0, 9, 3, 1, 0x80, 0]);
    assert!(b[120..510].iter().all(|&x| x == 0xF4));
    assert_eq!(le16(&b, 510), 0xAA55);
    let moved = boot_sector(&l, 2048, 1);
    assert_eq!(le64(&moved, 64), 2048);
}

#[test]
fn boot_checksum_skips_flags_only_in_the_boot_sector() {
    let l = layout_64mib();
    let b = boot_sector(&l, 0, 0x1234_5678);
    assert_eq!(boot_checksum(0, 0, &b), 0x171a_d20b);
    assert_eq!(boot_checksum(0, 1, &b), 0x6845_2364);
    let mut flagged = b;
    flagged[106] = 0x02;
    flagged[112] = 50;
    assert_eq!(boot_checksum(0, 0, &flagged), 0x171a_d20b);
    assert_ne!(boot_checksum(0, 1, &flagged), 0x6845_2364);
}

#[test]
fn root_entries_with_and_without_label() {
    let l = layout_64mib();
    let (entries, count) = root_entries(&l, &ExFatOptions::new());
    assert_eq!(count, 2);
    assert_eq!(entries[0][0], 0x81);
    assert_eq!(entries[0][1], 0);
    assert_eq!(le32(&entries[0], 20), 2);
    assert_eq!(le64(&entries[0], 24), 1984);
    assert_eq!(entries[1][0], 0x82);
    assert_eq!(le32(&entries[1], 4), RECOMMENDED_UPCASE_CHECKSUM);
    assert_eq!(le32(&entries[1], 20), 3);
    assert_eq!(le64(&entries[1], 24), 5836);
    assert_eq!(entries[2], [0u8; 32]);

    let two = plan(8 << 20, 4096, &ExFatOptions::new().with_fat_count(2)).unwrap();
    let options = ExFatOptions::new().with_label(VolumeLabel::new("Photos").unwrap());
    let (entries, count) = root_entries(&two, &options);
    assert_eq!(count, 4);
    assert_eq!(&entries[0][0..4], &[0x83, 6, b'P', 0]);
    assert_eq!(le16(&entries[0], 12), b's' as u16);
    assert!(entries[0][14..].iter().all(|&x| x == 0));
    assert_eq!((entries[1][1], le32(&entries[1], 20)), (0, 2));
    assert_eq!((entries[2][1], le32(&entries[2], 20)), (1, 3));
    assert_eq!(le32(&entries[3], 20), 4);
}

#[test]
fn system_chains_end_on_their_last_cluster() {
    let l = layout_64mib();
    assert_eq!(chain_next(&l, 2), FAT_END);
    assert_eq!(chain_next(&l, 3), 4);
    assert_eq!(chain_next(&l, 4), FAT_END);
    assert_eq!(chain_next(&l, 5), FAT_END);
    let two = plan(8 << 20, 4096, &ExFatOptions::new().with_fat_count(2)).unwrap();
    assert_eq!(chain_next(&two, 2), FAT_END);
    assert_eq!(chain_next(&two, 3), FAT_END);
    assert_eq!(chain_next(&two, 4), 5);
    assert_eq!(chain_next(&two, 5), FAT_END);
    assert_eq!(chain_next(&two, 6), FAT_END);
}

#[test]
fn bitmap_bytes_mark_used_clusters() {
    assert_eq!(bitmap_byte(4, 0), 0x0F);
    assert_eq!(bitmap_byte(8, 0), 0xFF);
    assert_eq!(bitmap_byte(20, 1), 0xFF);
    assert_eq!(bitmap_byte(20, 2), 0x0F);
    assert_eq!(bitmap_byte(17, 2), 0x01);
}

#[test]
fn volume_ids_mix_seconds_and_nanoseconds() {
    assert_eq!(volume_id(Timestamp { seconds: 315_532_800, nanos: 0 }), 0x12ce_a600);
    assert_eq!(
        volume_id(Timestamp { seconds: 1_700_000_000, nanos: 123_456_789 }),
        0xa846_f65b
    );
    assert_eq!(volume_id(Timestamp { seconds: -1, nanos: 1 }), 0x1_0000);
}

#[test]
fn upcase_tables_are_indexed_and_checked() {
    assert_eq!(mandatory_upcase(b'a' as u16), b'A' as u16);
    assert_eq!(mandatory_upcase(b'z' as u16), b'Z' as u16);
    assert_eq!(mandatory_upcase(b'{' as u16), b'{' as u16);
    assert_eq!(mandatory_upcase(0xE9), 0xE9);
    assert_eq!(table_checksum(0, b"abc"), 0x4000_00ac);

    let mut up = Upcase::new();
    assert!(up.is_identity(0) && up.is_identity(255));
    assert!(!up.is_valid());
    up.begin(0x2000_003d);
    up.add_bytes(&[0x61, 0, 0x62, 0]);
    assert!(!up.is_valid());
    for code in 0x61u16..=0x7A {
        up.record(code, code - 0x20);
    }
    up.record(0x0101, 0x0100);
    up.record(0x0201, 0x0201);
    up.seal();
    assert!(up.is_valid());
    assert!(!up.is_identity(0));
    assert!(!up.is_identity(1));
    assert!(up.is_identity(2));
    up.record(0x41, 0x61);
    assert!(!up.is_valid());
}

#[test]
fn default_options_are_new_options() {
    let d = ExFatOptions::default();
    let n = ExFatOptions::new();
    assert_eq!((d.fat_count, d.size, d.serial), (n.fat_count, n.size, n.serial));
    assert_eq!(plan(64 << 20, 512, &d).unwrap(), plan(64 << 20, 512, &n).unwrap());
}

#[test]
fn region_checksums_cover_the_extended_boot_signatures() {
    let l = layout_64mib();
    let b = boot_sector(&l, 0, 0x1234_5678);
    assert_eq!(region_checksum(&b, 512), 0x171a_d8af);
    assert_eq!(region_checksum(&b, 4096), 0x171a_d8af);
    assert_ne!(region_checksum(&b, 512), boot_checksum(0, 0, &b));
    let mut flagged = b;
    flagged[106] = 0x02;
    flagged[112] = 99;
    assert_eq!(region_checksum(&flagged, 512), 0x171a_d8af);
}
