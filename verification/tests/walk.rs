use hadris_fat::findings::Finding;
use hadris_fat::kind::FatKind;
use hadris_fat::walk::{
    backup_boot_sector, boot_field_findings, chain_end_finding, chain_length_finding,
    chain_start, claim, dot_entries_finding, free_count_finding, fs_info_sector, is_dot_dot_of,
    is_dot_of, label_entry, names_parent, CopyDiff, End, DOT, DOT_DOT, UNKNOWN_FREE,
};

#[test]
fn boot_fields_are_checked_in_order() {
    assert!(boot_field_findings(0xF8, 1, 2880, 0, FatKind::Fat12).is_empty());
    assert!(boot_field_findings(0xF0, 32, 0, 1_000_000, FatKind::Fat32).is_empty());
    assert_eq!(
        boot_field_findings(0x12, 0, 100, 100, FatKind::Fat16),
        vec![
            Finding::BootSector("media descriptor"),
            Finding::BootSector("reserved sector count"),
            Finding::BootSector("total sector count"),
        ]
    );
    assert_eq!(
        boot_field_findings(0xF8, 32, 100, 0, FatKind::Fat32),
        vec![Finding::BootSector("total sector count")]
    );
}

#[test]
fn reserved_sector_pointers() {
    assert_eq!(backup_boot_sector(0, 32), Ok(None));
    assert_eq!(backup_boot_sector(0xFFFF, 32), Ok(None));
    assert_eq!(backup_boot_sector(6, 32), Ok(Some(6)));
    assert_eq!(
        backup_boot_sector(32, 32),
        Err(Finding::BootSector("backup boot sector"))
    );
    assert_eq!(fs_info_sector(1, 32), Ok(Some(1)));
    assert_eq!(fs_info_sector(40, 32), Err(Finding::BootSector("FSInfo sector")));
}

#[test]
fn free_count_is_compared_when_known() {
    assert_eq!(free_count_finding(None, 5), None);
    assert_eq!(free_count_finding(Some(UNKNOWN_FREE), 5), None);
    assert_eq!(free_count_finding(Some(5), 5), None);
    assert_eq!(
        free_count_finding(Some(7), 5),
        Some(Finding::FreeCount { recorded: 7, actual: 5 })
    );
}

#[test]
fn chain_ends_and_starts() {
    assert_eq!(chain_end_finding(64, End::Eoc), None);
    assert_eq!(chain_end_finding(64, End::Bad(9)), Some(Finding::BadCluster { entry: 64, cluster: 9 }));
    assert_eq!(
        chain_end_finding(64, End::Broken { cluster: 9, next: 1 }),
        Some(Finding::BrokenChain { entry: 64, cluster: 9, next: 1 })
    );
    assert_eq!(chain_end_finding(64, End::Cycle(3)), Some(Finding::CyclicChain { entry: 64, cluster: 3 }));
    assert_eq!(chain_start(32, 0, false, 0, 100, None), (false, None));
    assert_eq!(
        chain_start(32, 0, false, 10, 100, None),
        (false, Some(Finding::ChainTooShort { entry: 32, size: 10, clusters: 0 }))
    );
    assert_eq!(
        chain_start(32, 0, true, 0, 100, None),
        (false, Some(Finding::InvalidCluster { entry: 32, cluster: 0 }))
    );
    assert_eq!(
        chain_start(32, 101, false, 1, 100, None),
        (false, Some(Finding::InvalidCluster { entry: 32, cluster: 101 }))
    );
    assert_eq!(
        chain_start(32, 2, true, 0, 100, Some(2)),
        (false, Some(Finding::InvalidCluster { entry: 32, cluster: 2 }))
    );
    assert_eq!(chain_start(32, 5, false, 1, 100, Some(2)), (true, None));
}

#[test]
fn chains_fit_their_files() {
    assert_eq!(chain_length_finding(0, 4096, 1, 4096), None);
    assert_eq!(chain_length_finding(0, 4097, 2, 4096), None);
    assert_eq!(
        chain_length_finding(0, 4097, 1, 4096),
        Some(Finding::ChainTooShort { entry: 0, size: 4097, clusters: 1 })
    );
    assert_eq!(
        chain_length_finding(0, 10, 3, 512),
        Some(Finding::ChainTooLong { entry: 0, size: 10, clusters: 3 })
    );
    assert_eq!(chain_length_finding(0, u32::MAX, 1, 1), Some(Finding::ChainTooShort { entry: 0, size: u32::MAX, clusters: 1 }));
}

#[test]
fn labels_and_dot_entries() {
    assert_eq!(label_entry(0, true, false), (None, true));
    assert_eq!(label_entry(32, true, true), (Some(Finding::Label { entry: 32 }), true));
    assert_eq!(label_entry(64, false, false), (Some(Finding::Label { entry: 64 }), false));
    assert!(names_parent(true, 0, None, 0));
    assert!(names_parent(true, 0, Some(2), 2));
    assert!(!names_parent(true, 0, Some(2), 5));
    assert!(names_parent(false, 7, Some(2), 7));
    assert!(is_dot_of(&DOT, true, 9, 9));
    assert!(!is_dot_of(&DOT, true, 8, 9));
    assert!(!is_dot_of(&DOT_DOT, true, 9, 9));
    assert!(is_dot_dot_of(&DOT_DOT, true, 0, true, 0, Some(2)));
    assert!(!is_dot_dot_of(&DOT_DOT, false, 0, true, 0, Some(2)));
    assert_eq!(dot_entries_finding(96, true, true), None);
    assert_eq!(dot_entries_finding(96, true, false), Some(Finding::DotEntry { entry: 96 }));
}

#[test]
fn clusters_claimed_twice_are_cross_linked() {
    let mut bits = [0u8; 2];
    assert_eq!(claim(&mut bits, 10, 26, 12, 64), None);
    assert_eq!(bits, [0b100, 0]);
    assert_eq!(claim(&mut bits, 10, 26, 12, 96), Some(Finding::CrossLinked { entry: 96, cluster: 12 }));
    assert_eq!(claim(&mut bits, 10, 26, 25, 96), None);
    assert_eq!(bits, [0b100, 0b1000_0000]);
    assert_eq!(claim(&mut bits, 10, 26, 26, 96), None);
    assert_eq!(claim(&mut bits, 10, 26, 9, 96), None);
    assert_eq!(bits, [0b100, 0b1000_0000]);
}

#[test]
fn fat_copies_count_differing_entries() {
    let mut diff = CopyDiff::new();
    diff.compare(2, 0xFFF8, 0xFFF8);
    assert_eq!(diff.finding(1), None);
    diff.compare(3, 4, 5);
    diff.compare(4, 0, 0);
    diff.compare(7, 8, 0);
    assert_eq!(diff.finding(1), Some(Finding::FatCopy { copy: 1, first: 3, entries: 2 }));
}
