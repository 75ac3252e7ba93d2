use hadris_fat::check::{bad_name, Run};
use hadris_fat::findings::Finding;
use hadris_fat::lfn::checksum;
use hadris_fat::dirent::ShortEntry;
use hadris_fat::embedded::{generation_base, short_units, Dir, Entry, File, FileType, Node};
use hadris_fat::error::ErrorKind;
use hadris_fat::fatfs::{bpb_serial_offset, Skip};
use hadris_fat::kind::FatKind;
use hadris_fat::layout::{plan, LayoutError, Request};
use hadris_fat::mkfs::{
    format_layout, layout_error, offset_sectors, plan_aligned, stamped_times, volume_bytes,
};
use hadris_fat::names::{
    apply_attributes, attributes, check_entry_name, check_name, fold_char, is_exact,
    permissions, read_only_bit, set_read_only, short_name, AsciiFold, Attributes, NewName,
};
use hadris_fat::short_name::generate;
use hadris_fat::oem::{Cp437OemCpConverter, LossyAsciiOemCpConverter};
use hadris_fat::options::{serial, FatOptions, Timestamp, VolumeLabel};

#[test]
fn fat_labels_are_checked_and_uppercased() {
    let label = VolumeLabel::new("Photos").unwrap();
    assert_eq!(label.as_bytes(), b"PHOTOS     ");
    assert_eq!(label.as_str(), "PHOTOS");
    assert_eq!(VolumeLabel::new("").err(), Some(ErrorKind::InvalidInput));
    assert_eq!(VolumeLabel::new(" A").err(), Some(ErrorKind::InvalidInput));
    assert_eq!(VolumeLabel::new("A.B").err(), Some(ErrorKind::InvalidInput));
    assert_eq!(VolumeLabel::new("é").err(), Some(ErrorKind::InvalidInput));
    assert_eq!(
        VolumeLabel::new("ABCDEFGHIJKL").err(),
        Some(ErrorKind::NameTooLong)
    );
    assert_eq!(VolumeLabel::new("abc def").unwrap().as_str(), "ABC DEF");
    assert_eq!(VolumeLabel::from_disk([0x20; 11]).as_str(), "");
    assert_eq!(VolumeLabel::from_disk(*b"NO NAME    ").as_str(), "NO NAME");
    let mut broken = [0x20u8; 11];
    broken[0] = 0xFF;
    assert_eq!(VolumeLabel::from_disk(broken).as_str(), "");
}

#[test]
fn serials_come_from_the_seed_or_the_time() {
    let time = Timestamp { seconds: 315_532_800, nanos: 0 };
    assert_eq!(serial(time, None), 0x12ce_a600);
    assert_eq!(serial(time, Some(0)), 0x993d_6596);
    assert_eq!(serial(time, Some(42)), 0x923c_5cb3);
}

#[test]
fn fat_options_defaults_and_builders() {
    let o = FatOptions::new();
    assert_eq!((o.fat_count, o.root_entries, o.media), (2, 512, 0xF8));
    assert_eq!(&o.oem_name, b"HADRISFT");
    assert!(o.kind.is_none() && o.size.is_none() && o.alignment.is_none());
    let o = o
        .with_kind(FatKind::Fat32)
        .with_size(1 << 30)
        .with_cluster_size(4096)
        .with_reserved_sectors(32)
        .with_fat_count(1)
        .with_root_entries(0)
        .with_media(0xF0)
        .with_oem_name(*b"MSWIN4.1")
        .with_alignment(1 << 20);
    assert_eq!(o.kind, Some(FatKind::Fat32));
    assert_eq!(o.size, Some(1 << 30));
    assert_eq!(o.cluster_size, Some(4096));
    assert_eq!(o.reserved_sectors, Some(32));
    assert_eq!((o.fat_count, o.root_entries, o.media), (1, 0, 0xF0));
    assert_eq!(&o.oem_name, b"MSWIN4.1");
    assert_eq!(o.alignment, Some(1 << 20));
}

#[test]
fn layout_errors_map_to_error_kinds() {
    assert_eq!(layout_error(LayoutError::TooSmall), ErrorKind::NoSpace);
    assert_eq!(layout_error(LayoutError::TooLarge), ErrorKind::LimitExceeded);
    assert_eq!(layout_error(LayoutError::Invalid("x")), ErrorKind::InvalidInput);
}

#[test]
fn volume_sizes_and_offsets() {
    assert_eq!(volume_bytes(None, 512, 100, 100), Ok(51_200));
    assert_eq!(volume_bytes(Some(1000), 512, 100, 100), Ok(1000));
    assert_eq!(volume_bytes(Some(60_000), 512, 100, 200), Ok(60_000));
    assert_eq!(volume_bytes(Some(60_000), 512, 100, 100), Err(ErrorKind::NoSpace));
    assert_eq!(volume_bytes(None, 1 << 40, 1 << 40, 0), Ok(u64::MAX));
    assert_eq!(offset_sectors(1 << 20, 512), Ok(2048));
    assert_eq!(offset_sectors(1000, 512), Err(ErrorKind::InvalidInput));
}

fn request(bytes: u64) -> Request {
    Request {
        kind: None,
        sector_size: 512,
        total_sectors: bytes / 512,
        cluster_size: None,
        reserved_sectors: None,
        fat_count: 2,
        root_entries: 512,
    }
}

#[test]
fn aligned_plans_start_data_on_the_alignment() {
    let r = request(64 << 20);
    assert_eq!(plan_aligned(&r, None), Ok(plan(&r).unwrap()));
    let aligned = plan_aligned(&r, Some(1 << 20)).unwrap();
    assert_eq!(aligned.data_start() % (1 << 20), 0);
    assert!(aligned.reserved_sectors >= plan(&r).unwrap().reserved_sectors);
    assert_eq!(plan_aligned(&r, Some(3000)), Err(ErrorKind::InvalidInput));
    assert_eq!(plan_aligned(&r, Some(256)), Err(ErrorKind::InvalidInput));
    assert_eq!(plan_aligned(&request(4096), None), Err(ErrorKind::NoSpace));
}

#[test]
fn format_layouts_follow_the_options() {
    let options = FatOptions::new().with_serial(0x1234);
    let p = format_layout(&options, 512, 32768, 32768, 1 << 20).unwrap();
    assert_eq!(p.layout, plan(&request(16 << 20)).unwrap());
    assert_eq!(p.fields.hidden_sectors, 2048);
    assert_eq!(p.fields.volume_id, 0x1234);
    assert_eq!(p.fields.media, 0xF8);
    assert_eq!(p.volume, p.layout.total_sectors as u64 * 512);
    assert!(p.fields.label.is_none());

    let labelled = FatOptions::new().with_label(VolumeLabel::new("data").unwrap());
    let p = format_layout(&labelled, 512, 32768, 32768, 0).unwrap();
    assert_eq!(p.fields.label, Some(*b"DATA       "));
    assert_eq!(p.fields.volume_id, 0x12ce_a600);

    assert_eq!(
        format_layout(&FatOptions::new().with_media(0x12), 512, 32768, 32768, 0).err(),
        Some(ErrorKind::InvalidInput)
    );
    assert_eq!(
        format_layout(&FatOptions::new(), 512, 32768, 32768, 1000).err(),
        Some(ErrorKind::InvalidInput)
    );
    assert_eq!(
        format_layout(&FatOptions::new().with_size(1 << 30), 512, 32768, 32768, 0).err(),
        Some(ErrorKind::NoSpace)
    );
}

#[test]
fn bad_short_names() {
    assert!(!bad_name(b"README  TXT"));
    assert!(!bad_name(b"\x05BC     TXT"));
    assert!(bad_name(b" ABC    TXT"));
    assert!(bad_name(b"readme  TXT"));
    assert!(bad_name(b"A+B     TXT"));
    assert!(bad_name(b"AB\x01     TXT"));
    assert!(bad_name(b"ABC     TX\x7F"));
}

#[test]
fn serial_offsets_and_skips() {
    assert_eq!(bpb_serial_offset(FatKind::Fat32), 0x43);
    assert_eq!(bpb_serial_offset(FatKind::Fat16), 0x27);
    assert_eq!(bpb_serial_offset(FatKind::Fat12), 0x27);
    let skip = Skip { entry: Some(96), run: Some((4, 6)) };
    assert!(skip.covers(0, 96));
    assert!(skip.covers(4, 0));
    assert!(skip.covers(6, 0));
    assert!(!skip.covers(7, 224));
    assert!(!Skip { entry: None, run: None }.covers(0, 0));
}

#[test]
fn characters_fold_inside_the_basic_plane() {
    assert_eq!(fold_char('a', &AsciiFold), 'A');
    assert_eq!(fold_char('Z', &AsciiFold), 'Z');
    assert_eq!(fold_char('é', &AsciiFold), 'é');
    assert_eq!(fold_char('\u{1F600}', &AsciiFold), '\u{1F600}');
}

#[test]
fn new_names_plan_their_slots() {
    let page = LossyAsciiOemCpConverter;
    let plain = NewName::new("readme.txt", &page, &AsciiFold).unwrap();
    assert_eq!(&plain.candidates[0], b"README  TXT");
    assert_eq!(&plain.candidates[1], b"README~1TXT");
    assert!(plain.lossless);
    assert_eq!(plain.case_bits, Some(0x18));
    assert!(plain.short_only());
    assert_eq!(plain.slots(), 1);

    let spaced = NewName::new("Read Me.txt", &page, &AsciiFold).unwrap();
    assert!(!spaced.lossless);
    assert_eq!(spaced.encoded.entries(), 1);
    assert_eq!(spaced.slots(), 2);

    assert_eq!(NewName::new("a/b", &page, &AsciiFold).err(), Some(ErrorKind::InvalidInput));
    assert_eq!(NewName::new("abc.", &page, &AsciiFold).err(), Some(ErrorKind::InvalidInput));
    assert_eq!(NewName::new("abc ", &page, &AsciiFold).err(), Some(ErrorKind::InvalidInput));
    assert_eq!(NewName::new("", &page, &AsciiFold).err(), Some(ErrorKind::InvalidInput));
    let long = "a".repeat(256);
    assert_eq!(NewName::new(&long, &page, &AsciiFold).err(), Some(ErrorKind::NameTooLong));
    assert!(NewName::new(&"a".repeat(255), &page, &AsciiFold).is_ok());
}

#[test]
fn short_names_fold_before_the_code_page() {
    let page = LossyAsciiOemCpConverter;
    assert_eq!(
        short_name("hello.txt", 0, &page, &AsciiFold),
        generate("hello.txt", 0, &page)
    );
    assert_eq!(short_name("hello.txt", 2, &page, &AsciiFold), Some(*b"HELLO~2 TXT"));
}

#[test]
fn component_names_are_checked() {
    assert_eq!(check_name("a.txt"), Ok(()));
    assert_eq!(check_name(""), Err(ErrorKind::InvalidInput));
    assert_eq!(check_name("a/b"), Err(ErrorKind::InvalidInput));
    assert_eq!(check_name("a\0"), Err(ErrorKind::InvalidInput));
    assert_eq!(check_entry_name("..."), Ok(()));
    assert_eq!(check_entry_name("."), Err(ErrorKind::InvalidInput));
    assert_eq!(check_entry_name(".."), Err(ErrorKind::InvalidInput));
}

#[test]
fn exact_names() {
    let mut entry = ShortEntry::new(*b"README  TXT", 0x20);
    let page = LossyAsciiOemCpConverter;
    assert!(is_exact("README.TXT", None, &entry, &page));
    assert!(!is_exact("readme.txt", None, &entry, &page));
    entry.nt_case = 0x18;
    assert!(is_exact("readme.txt", None, &entry, &page));
    let long: Vec<u16> = "Read Me.txt".encode_utf16().collect();
    assert!(is_exact("Read Me.txt", Some(&long), &entry, &page));
    assert!(!is_exact("readme.txt", Some(&long), &entry, &page));
}

#[test]
fn permissions_round_trip_through_the_read_only_bit() {
    assert_eq!(permissions(true, false), 0o755);
    assert_eq!(permissions(false, false), 0o644);
    assert_eq!(permissions(true, true), 0o555);
    assert_eq!(permissions(false, true), 0o444);
    for dir in [false, true] {
        for read_only in [false, true] {
            assert_eq!(read_only_bit(dir, permissions(dir, read_only)), Some(read_only));
        }
    }
    assert_eq!(read_only_bit(false, 0o600), None);
    assert_eq!(read_only_bit(true, 0o644), None);
}

#[test]
fn attributes_round_trip() {
    let mut entry = ShortEntry::new(*b"A          ", 0x10);
    set_read_only(&mut entry, true);
    assert_eq!(entry.attr, 0x11);
    set_read_only(&mut entry, false);
    assert_eq!(entry.attr, 0x10);
    let wanted = Attributes { read_only: true, hidden: false, system: true, archive: true };
    apply_attributes(&mut entry, wanted);
    assert_eq!(entry.attr, 0x35);
    assert_eq!(attributes(&entry), wanted);
    apply_attributes(&mut entry, Attributes { read_only: false, hidden: true, system: false, archive: false });
    assert_eq!(entry.attr, 0x12);
}

#[test]
fn embedded_handles_and_generations() {
    let file = File::new(3, 77);
    assert_eq!(file.slot(), 3);
    assert_eq!(file.generation(), 77);
    assert_eq!(generation_base(0, 0x1234_5678), 0x444c);
    assert_eq!(generation_base(3, 0xABCD_0001), 0x9bc5);
    assert_eq!(generation_base(0xFFFF, 0), 0xeffd);
}

#[test]
fn embedded_short_names_as_utf16() {
    let mut entry = ShortEntry::new(*b"CAF\x82    TXT", 0x20);
    entry.nt_case = 0x08;
    let mut out = [0xFFFFu16; 24];
    let n = short_units(&entry, &Cp437OemCpConverter, &mut out);
    let expected: Vec<u16> = "café.TXT".encode_utf16().collect();
    assert_eq!(n, expected.len());
    assert_eq!(&out[..n], &expected[..]);
    assert!(out[n..].iter().all(|&u| u == 0xFFFF));
}

#[test]
fn long_name_runs_are_checked() {
    let name = *b"README  TXT";
    let sum = checksum(&name);
    let mut run = Run::new();
    let mut found = Vec::new();
    run.fragment(true, 0, 0x42, sum, 13, &mut found);
    run.fragment(true, 32, 1, sum, 13, &mut found);
    run.close_run(true, &name, &mut found);
    assert!(found.is_empty());
    assert_eq!(run, Run::new());

    run.fragment(true, 64, 0x42, sum, 13, &mut found);
    run.close_run(true, &name, &mut found);
    assert_eq!(found, vec![Finding::OrphanLfn { entry: 64 }]);

    found.clear();
    run.fragment(true, 128, 0x41, sum.wrapping_add(1), 5, &mut found);
    run.close_run(true, &name, &mut found);
    assert_eq!(found, vec![Finding::LfnChecksum { entry: 128 }]);

    found.clear();
    run.fragment(true, 0, 1, sum, 13, &mut found);
    run.fragment(true, 32, 2, sum, 13, &mut found);
    assert_eq!(found, vec![Finding::OrphanLfn { entry: 0 }]);
    run.break_run(true, &mut found);
    assert_eq!(found.len(), 1);

    found.clear();
    run.fragment(true, 0, 0x43, sum, 13, &mut found);
    run.fragment(true, 32, 1, sum, 13, &mut found);
    run.break_run(true, &mut found);
    assert_eq!(found, vec![Finding::OrphanLfn { entry: 0 }]);

    found.clear();
    run.fragment(true, 0, 0x40, sum, 13, &mut found);
    run.fragment(false, 32, 0x42, sum, 13, &mut found);
    run.close_run(false, &name, &mut found);
    assert_eq!(found, vec![Finding::OrphanLfn { entry: 0 }]);
}

#[test]
fn embedded_entries_report_their_short_entry() {
    let mut short = ShortEntry::new(*b"NOTES   TXT", 0x21);
    short.size = 1234;
    let name: Vec<u16> = "notes.txt".encode_utf16().collect();
    let entry = Entry::new(&name, short, 4096, 4128, Some(60));
    assert_eq!(entry.name_utf16(), &name[..]);
    assert_eq!(entry.chars().into_iter().collect::<String>(), "notes.txt");
    assert_eq!(&entry.short_name(), b"NOTES   TXT");
    assert_eq!(entry.file_type(), FileType::File);
    assert!(!entry.is_dir());
    assert_eq!(entry.len(), 1234);
    assert!(!entry.is_empty());
    assert!(entry.attributes().read_only && entry.attributes().archive);
    assert_eq!(entry.node(), Node::new(4096));
    assert_eq!(entry.node().offset(), 4096);
    assert_eq!(entry.next_cursor(), 4128);

    let dir = Entry::new(&name, ShortEntry::new(*b"SUB        ", 0x10), 64, 96, None);
    assert_eq!(dir.file_type(), FileType::Dir);
    assert_eq!(dir.len(), 0);
    assert!(dir.is_empty());

    assert!(Dir::root().is_root());
    assert!(!Dir::new(5).is_root());
    assert_eq!(Dir::new(5).first(), 5);
}

#[test]
fn unset_times_take_the_format_time() {
    let now = Timestamp { seconds: 1_700_000_000, nanos: 5 };
    let old = Timestamp { seconds: 86_400, nanos: 0 };
    assert_eq!(
        stamped_times(Some(old), None, None, now),
        (old, now, now)
    );
    assert_eq!(stamped_times(None, Some(old), Some(old), now), (now, old, old));
}
