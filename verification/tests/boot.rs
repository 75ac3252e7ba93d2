use hadris_fat::boot::{
    check_bpb, check_ext16, check_ext32, check_fs_info, clusters, geometry16, geometry32,
    is_fat32, total_sectors, BootError, RawBpb, RawBpbExt16, RawBpbExt32, RawFsInfo, RootDir,
    BOOT_SIGNATURE, FSINFO_LEAD_SIG, FSINFO_STRUC_SIG, FSINFO_TRAIL_SIG,
};
use hadris_fat::kind::{FatKind, FAT32_MAX_CLUSTERS};

fn bpb(
    sector_size: u16,
    spc: u8,
    reserved: u16,
    fats: u8,
    root_entries: u16,
    spf16: u16,
    total: u32,
) -> RawBpb {
    let mut bpb = RawBpb::zeroed();
    bpb.bytes_per_sector = sector_size;
    bpb.sectors_per_cluster = spc;
    bpb.reserved_sector_count = reserved;
    bpb.fat_count = fats;
    bpb.root_entry_count = root_entries;
    bpb.sectors_per_fat_16 = spf16;
    if total <= u16::MAX as u32 {
        bpb.total_sectors_16 = total as u16;
    } else {
        bpb.total_sectors_32 = total;
    }
    bpb
}

#[test]
fn check_bpb_rejects_bad_sizes() {
    assert_eq!(check_bpb(&bpb(512, 1, 1, 2, 224, 9, 2880)), Ok(()));
    assert!(matches!(
        check_bpb(&bpb(500, 1, 1, 2, 224, 9, 2880)),
        Err(BootError::Corrupt(_))
    ));
    assert!(matches!(
        check_bpb(&bpb(512, 3, 1, 2, 224, 9, 2880)),
        Err(BootError::Corrupt(_))
    ));
    assert!(matches!(
        check_bpb(&bpb(512, 0, 1, 2, 224, 9, 2880)),
        Err(BootError::Corrupt(_))
    ));
    assert!(matches!(
        check_bpb(&bpb(4096, 16, 1, 2, 224, 9, 2880)),
        Err(BootError::Corrupt(_))
    ));
}

#[test]
fn floppy_is_fat12() {
    let bpb = bpb(512, 1, 1, 2, 224, 9, 2880);
    assert!(!is_fat32(&bpb));
    let geo = geometry16(&bpb).unwrap();
    assert_eq!(geo.kind, FatKind::Fat12);
    assert_eq!(geo.fat_start, 512);
    assert_eq!(geo.fat_size, 9 * 512);
    assert_eq!(
        geo.root,
        RootDir::Fixed {
            start: 19 * 512,
            size: 224 * 32
        }
    );
    assert_eq!(geo.data_start, 33 * 512);
    assert_eq!(geo.max_cluster, 2880 - 33 + 1);
    assert_eq!(geo.cluster_offset(2), Some(geo.data_start));
    assert_eq!(geo.cluster_offset(3), Some(geo.data_start + 512));
    assert_eq!(geo.cluster_offset(0), None);
    assert_eq!(geo.cluster_offset(1), None);
    assert_eq!(geo.cluster_offset(geo.max_cluster + 1), None);
}

#[test]
fn many_clusters_is_fat16() {
    let geo = geometry16(&bpb(512, 4, 4, 2, 512, 64, 65_536)).unwrap();
    assert_eq!(geo.kind, FatKind::Fat16);
    assert_eq!(geo.cluster_size, 2048);
    assert_eq!(geo.max_cluster as u64, (65_536 - 4 - 128 - 32) / 4 + 1);
}

#[test]
fn fat32_geometry_and_root_cluster() {
    let bpb = bpb(512, 8, 32, 2, 0, 0, 1 << 20);
    assert!(is_fat32(&bpb));
    let mut ext = RawBpbExt32::zeroed();
    ext.sectors_per_fat_32 = 1024;
    ext.root_cluster = 2;
    ext.signature_word = BOOT_SIGNATURE;
    assert_eq!(check_ext32(&bpb, &ext), Ok(()));
    let geo = geometry32(&bpb, &ext).unwrap();
    assert_eq!(geo.kind, FatKind::Fat32);
    assert_eq!(geo.root, RootDir::Cluster(2));
    assert_eq!(geo.data_start, (32 + 2048) * 512);
    assert_eq!(geo.max_cluster, ((1 << 20) - 32 - 2048) / 8 + 1);

    ext.root_cluster = 1;
    assert!(matches!(
        geometry32(&bpb, &ext),
        Err(BootError::RootCluster { cluster: 1, .. })
    ));
    ext.version = 1;
    assert!(matches!(
        check_ext32(&bpb, &ext),
        Err(BootError::Corrupt(_))
    ));
    ext.signature_word = 0;
    assert_eq!(check_ext32(&bpb, &ext), Err(BootError::Signature(0)));
}

#[test]
fn cluster_counts_are_limited_by_the_fat_type() {
    let fat16_max = bpb(512, 1, 1, 2, 512, 256, 1 + 512 + 32 + 65_524);
    let geo = geometry16(&fat16_max).unwrap();
    assert_eq!((geo.kind, geo.max_cluster), (FatKind::Fat16, 65_525));
    let fat16_over = bpb(512, 1, 1, 2, 512, 257, 1 + 514 + 32 + 65_525);
    assert!(matches!(
        geometry16(&fat16_over),
        Err(BootError::Corrupt(_))
    ));
    let fat12_max = bpb(512, 1, 1, 2, 512, 12, 1 + 24 + 32 + 4_084);
    assert_eq!(geometry16(&fat12_max).unwrap().kind, FatKind::Fat12);
    let no_root = bpb(512, 1, 1, 2, 0, 12, 1 + 24 + 4_000);
    assert!(!is_fat32(&no_root));
    assert!(matches!(geometry16(&no_root), Err(BootError::Corrupt(_))));

    let mut ext = RawBpbExt32::zeroed();
    ext.root_cluster = 2;
    ext.sectors_per_fat_32 = 1;
    let over = bpb(512, 1, 32, 1, 0, 0, u32::MAX);
    assert!(matches!(
        geometry32(&over, &ext),
        Err(BootError::Corrupt(_))
    ));
    let max = bpb(512, 1, 32, 1, 0, 0, 32 + 1 + FAT32_MAX_CLUSTERS);
    assert_eq!(
        geometry32(&max, &ext).unwrap().max_cluster,
        FAT32_MAX_CLUSTERS + 1
    );
    ext.sectors_per_fat_32 = 504;
    let small = bpb(512, 1, 32, 2, 0, 0, 65_536);
    let geo = geometry32(&small, &ext).unwrap();
    assert_eq!((geo.kind, geo.max_cluster), (FatKind::Fat32, 64_497));
}

#[test]
fn ext16_checks_signature_before_fat_count() {
    let mut ext = RawBpbExt16::zeroed();
    let bad_count = bpb(512, 1, 1, 3, 224, 9, 2880);
    assert_eq!(check_ext16(&bad_count, &ext), Err(BootError::Signature(0)));
    ext.signature_word = BOOT_SIGNATURE;
    assert!(matches!(
        check_ext16(&bad_count, &ext),
        Err(BootError::Corrupt(_))
    ));
    assert_eq!(check_ext16(&bpb(512, 1, 1, 2, 224, 9, 2880), &ext), Ok(()));
}

#[test]
fn fs_info_signatures() {
    let mut info = RawFsInfo::zeroed();
    assert!(matches!(
        check_fs_info(&info),
        Err(BootError::FsInfoSignature {
            field: "FSI_LeadSig",
            ..
        })
    ));
    info.signature = FSINFO_LEAD_SIG;
    info.structure_signature = FSINFO_STRUC_SIG;
    assert!(matches!(
        check_fs_info(&info),
        Err(BootError::FsInfoSignature {
            field: "FSI_TrailSig",
            ..
        })
    ));
    info.trail_signature = FSINFO_TRAIL_SIG;
    assert_eq!(check_fs_info(&info), Ok(()));
}

#[test]
fn fs_info_names_the_structure_signature() {
    let mut info = RawFsInfo::zeroed();
    info.signature = FSINFO_LEAD_SIG;
    assert_eq!(
        check_fs_info(&info),
        Err(BootError::FsInfoSignature {
            field: "FSI_StrucSig",
            expected: FSINFO_STRUC_SIG,
            found: 0,
        })
    );
}

#[test]
fn total_sectors_prefers_the_small_field() {
    let mut b = bpb(512, 1, 1, 2, 224, 9, 2880);
    assert_eq!(total_sectors(&b), 2880);
    b.total_sectors_32 = 70_000;
    assert_eq!(total_sectors(&b), 2880);
    b.total_sectors_16 = 0;
    assert_eq!(total_sectors(&b), 70_000);
}

#[test]
fn clusters_count_whole_clusters_after_metadata() {
    let b = bpb(512, 4, 1, 2, 224, 9, 2880);
    assert_eq!(clusters(&b, 33), Ok((2880 - 33) / 4));
    assert_eq!(clusters(&b, 5000), Ok(0));
    let zero = bpb(512, 0, 1, 2, 224, 9, 2880);
    assert!(matches!(clusters(&zero, 33), Err(BootError::Corrupt(_))));
}

#[test]
fn boot_record_fields_round_trip_through_bytes() {
    let mut b = bpb(512, 8, 32, 2, 0, 0, 1 << 20);
    b.jump = [0xEB, 0x58, 0x90];
    b.oem_name = *b"MSWIN4.1";
    b.media_type = 0xF8;
    b.hidden_sector_count = 63;
    let mut sector = [0u8; 512];
    b.store(&mut sector);
    assert_eq!(RawBpb::parse(&sector), b);
    assert_eq!(u16::from_le_bytes([sector[11], sector[12]]), 512);

    let mut ext = RawBpbExt32::zeroed();
    ext.sectors_per_fat_32 = 1024;
    ext.root_cluster = 2;
    ext.volume_id = 0xDEAD_BEEF;
    ext.volume_label = *b"LABEL      ";
    ext.signature_word = BOOT_SIGNATURE;
    ext.store(&mut sector);
    assert_eq!(RawBpbExt32::parse(&sector), ext);
    assert_eq!(RawBpb::parse(&sector), b);
    assert_eq!(&sector[510..], &[0x55, 0xAA]);

    let mut info = RawFsInfo::zeroed();
    info.signature = FSINFO_LEAD_SIG;
    info.free_count = 1234;
    let mut fs = [0u8; 512];
    info.store(&mut fs);
    assert_eq!(RawFsInfo::parse(&fs), info);
    assert_eq!(&fs[0..4], b"RRaA");
}

#[test]
fn geometry_errors_say_what_is_wrong() {
    assert_eq!(
        geometry16(&bpb(512, 1, 1, 2, 257 * 16, 257, 1 + 514 + 257 + 65_525)),
        Err(BootError::Corrupt("FAT12/16 layout has more clusters than FAT16 can address"))
    );
    assert_eq!(
        geometry16(&bpb(512, 1, 1, 2, 0, 12, 4_000)),
        Err(BootError::Corrupt("BPB root_entry_count must not be zero on FAT12/16"))
    );
    assert_eq!(
        geometry16(&bpb(0, 1, 1, 2, 0, 12, 4_000)),
        Err(BootError::Corrupt("BPB root_entry_count must not be zero on FAT12/16"))
    );
    assert_eq!(
        geometry16(&bpb(512, 0, 1, 2, 224, 9, 2880)),
        Err(BootError::Corrupt("BPB sectors_per_cluster must not be zero"))
    );
    let mut ext = RawBpbExt32::zeroed();
    ext.root_cluster = 2;
    ext.sectors_per_fat_32 = 1;
    assert_eq!(
        geometry32(&bpb(512, 1, 32, 1, 0, 0, u32::MAX), &ext),
        Err(BootError::Corrupt("FAT32 layout has more clusters than FAT32 can address"))
    );
    assert_eq!(
        geometry32(&bpb(512, 0, 32, 1, 0, 0, 70_000), &ext),
        Err(BootError::Corrupt("BPB sectors_per_cluster must not be zero"))
    );
}
