use hadris_fat::boot::{
    check_bpb, check_ext16, check_ext32, check_fs_info, geometry16, geometry32, RawBpb,
    RawBpbExt16, RawBpbExt32, RawFsInfo, RootDir,
};
use hadris_fat::format::{
    encode_boot_sector, encode_fs_info, reserved_fat_entries, BootFields, ROOT_CLUSTER,
};
use hadris_fat::kind::{FatKind, FAT12_MAX_CLUSTERS};
use hadris_fat::layout::{
    cluster_range, default_cluster_sectors, fat_sectors, plan, Layout, LayoutError, Request,
    MAX_CLUSTER_BYTES, MIB,
};

fn request(kind: Option<FatKind>, bytes: u64) -> Request {
    Request {
        kind,
        sector_size: 512,
        total_sectors: bytes / 512,
        cluster_size: None,
        reserved_sectors: None,
        fat_count: 2,
        root_entries: 512,
    }
}

#[test]
fn floppy_geometry() {
    let layout = plan(&Request {
        root_entries: 224,
        cluster_size: Some(512),
        ..request(Some(FatKind::Fat12), 1_474_560)
    })
    .unwrap();
    assert_eq!(layout.fat_sectors, 9);
    assert_eq!(layout.clusters, 2847);
    assert_eq!(layout.root_sectors(), 14);
    assert_eq!(layout.data_start(), 33 * 512);
}

#[test]
fn auto_selects_by_size() {
    let kind = |bytes| plan(&request(None, bytes)).unwrap().kind;
    assert_eq!(kind(MIB), FatKind::Fat12);
    assert_eq!(kind(16 * MIB - 512), FatKind::Fat12);
    assert_eq!(kind(16 * MIB), FatKind::Fat16);
    assert_eq!(kind(512 * MIB - 512), FatKind::Fat16);
    assert_eq!(kind(512 * MIB), FatKind::Fat32);
    assert_eq!(kind(2048 * MIB), FatKind::Fat32);
}

#[test]
fn cluster_size_adjusts_to_the_variant() {
    let fat12 = plan(&request(Some(FatKind::Fat12), 32 * MIB)).unwrap();
    assert!(fat12.clusters <= FAT12_MAX_CLUSTERS);
    assert_eq!(fat12.cluster_size(), 16 * 1024);
    let fat16 = plan(&request(Some(FatKind::Fat16), 2000 * MIB)).unwrap();
    assert_eq!(fat16.cluster_size(), MAX_CLUSTER_BYTES);
    let fat16 = plan(&request(Some(FatKind::Fat16), 4 * MIB)).unwrap();
    assert!(fat16.clusters > FAT12_MAX_CLUSTERS);
}

#[test]
fn limits() {
    assert_eq!(
        plan(&request(Some(FatKind::Fat32), 32 * MIB)),
        Err(LayoutError::TooSmall)
    );
    assert_eq!(
        plan(&request(Some(FatKind::Fat16), 2 * MIB)),
        Err(LayoutError::TooSmall)
    );
    assert_eq!(
        plan(&request(Some(FatKind::Fat12), 256 * MIB)),
        Err(LayoutError::TooLarge)
    );
    assert_eq!(
        plan(&request(Some(FatKind::Fat16), 4096 * MIB)),
        Err(LayoutError::TooLarge)
    );
    assert_eq!(plan(&request(None, 33 * 512)), Err(LayoutError::TooSmall));
    assert!(plan(&request(None, 36 * 512)).is_ok());
    assert_eq!(
        plan(&request(None, (u32::MAX as u64 + 1) * 512)),
        Err(LayoutError::TooLarge)
    );
}

#[test]
fn rejects_bad_options() {
    let bad = |request: Request| matches!(plan(&request), Err(LayoutError::Invalid(_)));
    let base = request(None, 8 * MIB);
    assert!(bad(Request {
        sector_size: 256,
        ..base
    }));
    assert!(bad(Request {
        fat_count: 3,
        ..base
    }));
    assert!(bad(Request {
        cluster_size: Some(3 * 512),
        ..base
    }));
    assert!(bad(Request {
        cluster_size: Some(256),
        ..base
    }));
    assert!(bad(Request {
        cluster_size: Some(64 * 1024),
        ..base
    }));
    assert!(bad(Request {
        root_entries: 0,
        ..base
    }));
    assert!(bad(Request {
        reserved_sectors: Some(0),
        ..base
    }));
    assert!(bad(Request {
        kind: Some(FatKind::Fat32),
        reserved_sectors: Some(7),
        ..request(None, 64 * MIB)
    }));
}

#[test]
fn root_entries_fill_whole_sectors() {
    let layout = plan(&Request {
        root_entries: 20,
        ..request(None, 4 * MIB)
    })
    .unwrap();
    assert_eq!(layout.root_entries, 32);
    let layout = plan(&Request {
        root_entries: 20,
        sector_size: 4096,
        total_sectors: 1024,
        ..request(None, 0)
    })
    .unwrap();
    assert_eq!(layout.root_entries, 128);
}

fn round_trip(layout: &Layout) {
    let fields = BootFields {
        oem_name: *b"TESTOEM ",
        media: 0xF8,
        hidden_sectors: 63,
        volume_id: 0x1234_5678,
        label: Some(*b"LABEL      "),
    };
    let sector = encode_boot_sector(layout, &fields);
    let bpb = RawBpb::parse(&sector);
    check_bpb(&bpb).unwrap();
    let geometry = if layout.kind == FatKind::Fat32 {
        let ext = RawBpbExt32::parse(&sector);
        check_ext32(&bpb, &ext).unwrap();
        assert_eq!(ext.volume_label, *b"LABEL      ");
        geometry32(&bpb, &ext).unwrap()
    } else {
        let ext = RawBpbExt16::parse(&sector);
        check_ext16(&bpb, &ext).unwrap();
        assert_eq!(ext.volume_id, 0x1234_5678);
        geometry16(&bpb).unwrap()
    };
    assert_eq!(geometry.kind, layout.kind);
    assert_eq!(geometry.data_start, layout.data_start());
    assert_eq!(geometry.max_cluster, layout.clusters + 1);
    assert_eq!(geometry.cluster_size, layout.cluster_size());
    assert!(
        layout.kind.entry_offset(geometry.max_cluster as u64) + layout.kind.entry_len() as u64
            <= geometry.fat_size
    );
}

#[test]
fn boot_sectors_parse_back() {
    for (kind, bytes) in [
        (None, 36 * 512),
        (Some(FatKind::Fat12), 16 * MIB),
        (None, 64 * MIB),
        (Some(FatKind::Fat32), 40 * MIB),
        (None, 8 * 1024 * MIB),
    ] {
        round_trip(&plan(&request(kind, bytes)).unwrap());
    }
    let layout = plan(&Request {
        sector_size: 4096,
        total_sectors: 16 * MIB / 4096,
        ..request(Some(FatKind::Fat12), 0)
    })
    .unwrap();
    round_trip(&layout);
}

#[test]
fn reserved_entries() {
    assert_eq!(
        reserved_fat_entries(FatKind::Fat12, 0xF0),
        ([0xF0, 0xFF, 0xFF, 0, 0, 0, 0, 0, 0, 0, 0, 0], 3)
    );
    assert_eq!(reserved_fat_entries(FatKind::Fat16, 0xF8).1, 4);
    assert_eq!(
        reserved_fat_entries(FatKind::Fat32, 0xF8),
        (
            [0xF8, 0xFF, 0xFF, 0x0F, 0xFF, 0xFF, 0xFF, 0x0F, 0xF8, 0xFF, 0xFF, 0x0F],
            12
        )
    );
}

#[test]
fn boot_sector_bytes_of_a_floppy() {
    let layout = plan(&Request {
        root_entries: 224,
        cluster_size: Some(512),
        ..request(Some(FatKind::Fat12), 1_474_560)
    })
    .unwrap();
    let fields = BootFields {
        oem_name: *b"HADRIS  ",
        media: 0xF0,
        hidden_sectors: 0,
        volume_id: 0x0102_0304,
        label: None,
    };
    let sector = encode_boot_sector(&layout, &fields);
    assert_eq!(&sector[0..3], &[0xEB, 0x3C, 0x90]);
    assert_eq!(&sector[3..11], b"HADRIS  ");
    assert_eq!(u16::from_le_bytes([sector[19], sector[20]]), 2880);
    assert_eq!(sector[36], 0x00);
    assert_eq!(sector[38], 0x29);
    assert_eq!(&sector[43..54], b"NO NAME    ");
    assert_eq!(&sector[54..62], b"FAT12   ");
    assert_eq!(&sector[0x3E..0x43], &[0xCD, 0x18, 0xF4, 0xEB, 0xFD]);
    assert!(sector[0x43..510].iter().all(|&b| b == 0));
    assert_eq!(&sector[510..], &[0x55, 0xAA]);
}

#[test]
fn fat32_boot_sector_names_root_and_fs_info() {
    let layout = plan(&request(Some(FatKind::Fat32), 64 * MIB)).unwrap();
    let fields = BootFields {
        oem_name: *b"HADRIS  ",
        media: 0xF8,
        hidden_sectors: 2048,
        volume_id: 7,
        label: None,
    };
    let sector = encode_boot_sector(&layout, &fields);
    assert_eq!(sector[1], 0x58);
    let ext = RawBpbExt32::parse(&sector);
    assert_eq!(ext.root_cluster, ROOT_CLUSTER);
    assert_eq!(ext.fs_info_sector, 1);
    assert_eq!(ext.boot_sector, 6);
    assert_eq!(ext.drive_number, 0x80);
    assert_eq!(&ext.fs_type, b"FAT32   ");
    let geometry = geometry32(&RawBpb::parse(&sector), &ext).unwrap();
    assert_eq!(geometry.root, RootDir::Cluster(2));
    assert_eq!(&sector[0x5A..0x5F], &[0xCD, 0x18, 0xF4, 0xEB, 0xFD]);
}

#[test]
fn fs_info_reads_back() {
    let sector = encode_fs_info(1000, 3);
    let info = RawFsInfo::parse(&sector);
    assert_eq!(check_fs_info(&info), Ok(()));
    assert_eq!((info.free_count, info.next_free), (1000, 3));
    assert!(sector[4..484].iter().all(|&b| b == 0));
}

#[test]
fn cluster_ranges_and_defaults() {
    assert_eq!(cluster_range(FatKind::Fat12), (1, 4084));
    assert_eq!(cluster_range(FatKind::Fat16), (4085, 65524));
    assert_eq!(cluster_range(FatKind::Fat32), (65525, 0x0FFF_FFF5));
    assert_eq!(default_cluster_sectors(FatKind::Fat12, MIB), 1);
    assert_eq!(default_cluster_sectors(FatKind::Fat16, 100 * MIB), 16);
    assert_eq!(default_cluster_sectors(FatKind::Fat32, 20 * 1024 * MIB), 32);
}

#[test]
fn fat_sectors_cover_their_clusters() {
    assert_eq!(fat_sectors(FatKind::Fat12, 2847 + 18, 1, 2, 512), Some((9, 2847)));
    assert_eq!(fat_sectors(FatKind::Fat16, 10, 1, 2, 512), Some((1, 8)));
}

#[test]
fn fat_sectors_is_the_smallest_that_covers() {
    assert_eq!(fat_sectors(FatKind::Fat16, 2305, 1, 2, 512), Some((9, 2287)));
    assert_eq!(fat_sectors(FatKind::Fat16, 100, 1, 2, 512), Some((1, 98)));
    assert_eq!(fat_sectors(FatKind::Fat12, 0, 1, 2, 512), Some((1, 0)));
    assert_eq!(fat_sectors(FatKind::Fat16, 1, 1, 2, 512), Some((1, 0)));
    assert_eq!(fat_sectors(FatKind::Fat16, 9, 1, 2, 1), None);
    assert_eq!(fat_sectors(FatKind::Fat16, 10, 1, 2, 1), Some((5, 0)));
    assert_eq!(fat_sectors(FatKind::Fat32, 1_000_000, 8, 2, 512), Some((975, 124756)));
}

#[test]
fn layout_offsets_of_any_sizes() {
    let layout = Layout {
        kind: FatKind::Fat16,
        sector_size: 65_536,
        cluster_sectors: 4,
        reserved_sectors: 2,
        fat_count: 2,
        root_entries: 2049,
        total_sectors: 100_000,
        fat_sectors: 10,
        clusters: 1000,
    };
    assert_eq!(layout.root_sectors(), 2);
    assert_eq!(layout.fat_start(), 2 * 65_536);
    assert_eq!(layout.root_start(), 22 * 65_536);
    assert_eq!(layout.data_start(), 24 * 65_536);
    assert_eq!(layout.cluster_size(), 4 * 65_536);
}
