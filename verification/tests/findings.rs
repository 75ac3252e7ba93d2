use hadris_fat::exfat::check::Tally;
use hadris_fat::exfat::findings as exfat;
use hadris_fat::check::LostRun;
use hadris_fat::findings::{CheckReport, Finding, FindingKind, KINDS};
use hadris_fat::kind::FatKind;

#[test]
fn fat_reports_count_findings_by_kind() {
    let mut report = CheckReport::new();
    assert!(report.is_clean());
    assert_eq!(report.findings(), 0);
    report.record(&Finding::BackupBootSector);
    report.record(&Finding::BadCluster { entry: 64, cluster: 9 });
    report.record(&Finding::BadCluster { entry: 96, cluster: 10 });
    assert!(!report.is_clean());
    assert_eq!(report.findings(), 3);
    assert_eq!(report.count(FindingKind::BadCluster), 2);
    assert_eq!(report.count(FindingKind::BackupBootSector), 1);
    assert_eq!(report.count(FindingKind::OrphanLfn), 0);
    assert_eq!(Finding::FsInfo.kind(), FindingKind::FsInfo);
    assert_eq!(
        Finding::FreeCount { recorded: 1, actual: 2 }.kind(),
        FindingKind::FreeCount
    );
    assert_eq!(FindingKind::OrphanLfn.index(), KINDS - 1);
}

#[test]
fn fat_report_starts_with_zero_totals() {
    let report = CheckReport::new();
    assert_eq!(
        (
            report.files(),
            report.directories(),
            report.used_clusters(),
            report.free_clusters(),
            report.bad_clusters(),
            report.lost_clusters(),
            report.passes()
        ),
        (0, 0, 0, 0, 0, 0, 0)
    );
    for kind in [FindingKind::BootSector, FindingKind::Label, FindingKind::OrphanLfn] {
        assert_eq!(report.count(kind), 0);
    }
}

#[test]
fn fat_report_counts_each_kind_and_totals() {
    let findings = [
        Finding::Label { entry: 0 },
        Finding::DotEntry { entry: 32 },
        Finding::Label { entry: 64 },
        Finding::FsInfo,
        Finding::Label { entry: 96 },
    ];
    let mut report = CheckReport::new();
    for f in findings.iter() {
        report.record(f);
    }
    assert_eq!(report.findings(), 5);
    assert_eq!(report.count(FindingKind::Label), 3);
    assert_eq!(report.count(FindingKind::DotEntry), 1);
    assert_eq!(report.count(FindingKind::FsInfo), 1);
    assert_eq!(report.count(FindingKind::BadName), 0);
    assert!(!report.is_clean());
}

#[test]
fn finding_kinds_name_variants() {
    assert_eq!(
        Finding::LostClusters { first: 5, count: 2 }.kind(),
        FindingKind::LostClusters
    );
    assert_eq!(Finding::BootSector("x").kind(), FindingKind::BootSector);
    assert_eq!(
        Finding::LostClusters { first: 1, count: 1 }.kind(),
        Finding::LostClusters { first: 9, count: 3 }.kind()
    );
    assert_ne!(
        Finding::Label { entry: 0 }.kind(),
        Finding::BadName { entry: 0 }.kind()
    );
}

#[test]
fn exfat_reports_count_findings_by_kind() {
    let mut report = exfat::CheckReport::new();
    assert!(report.is_clean());
    report.record(&exfat::Finding::VolumeDirty);
    report.record(&exfat::Finding::PercentInUse { recorded: 1, actual: 3 });
    report.record(&exfat::Finding::TooDeep { entry: 128 });
    report.record(&exfat::Finding::TooDeep { entry: 160 });
    assert_eq!(report.findings(), 4);
    assert_eq!(report.count(exfat::FindingKind::TooDeep), 2);
    assert_eq!(report.count(exfat::FindingKind::BootChecksum), 0);
    assert_eq!(
        exfat::Finding::LostClusters { first: 3, count: 4 }.kind(),
        exfat::FindingKind::LostClusters
    );
    assert_eq!(exfat::FindingKind::TooDeep.index(), exfat::KINDS - 1);
    assert_eq!((report.free_clusters(), report.passes()), (0, 0));
}

#[test]
fn exfat_scan_reports_runs_once() {
    let mut report = exfat::CheckReport::new();
    let mut tally = Tally::new();
    let mut found = Vec::new();
    let clusters = [
        (2, true, true, false),
        (3, true, false, false),
        (4, true, false, false),
        (5, false, false, false),
        (6, false, true, false),
        (7, false, true, false),
        (8, true, true, false),
        (9, true, false, true),
        (10, true, false, false),
    ];
    for (cluster, allocated, claimed, bad) in clusters {
        tally.tally(&mut report, cluster, allocated, claimed, bad, &mut found);
    }
    tally.flush_lost(&mut report, &mut found);
    tally.flush_free_in_use(&mut report, &mut found);
    assert_eq!(
        found,
        vec![
            exfat::Finding::LostClusters { first: 3, count: 2 },
            exfat::Finding::FreeInUse { first: 6, count: 2 },
            exfat::Finding::LostClusters { first: 10, count: 1 },
        ]
    );
    assert_eq!(
        (
            report.free_clusters(),
            report.used_clusters(),
            report.lost_clusters(),
            report.bad_clusters()
        ),
        (3, 6, 3, 1)
    );
    assert_eq!(report.count(exfat::FindingKind::LostClusters), 2);
    assert_eq!(report.count(exfat::FindingKind::FreeInUse), 1);
    assert_eq!(tally, Tally::new());
}

#[test]
fn fat_scan_reports_lost_runs_once() {
    let mut report = CheckReport::new();
    let mut run = LostRun::new();
    let mut found = Vec::new();
    let entries = [
        (2, 0xFFFF, true),
        (3, 5, false),
        (4, 0xFFFF, false),
        (5, 0, false),
        (6, 0xFFF7, false),
        (7, 8, false),
    ];
    for (cluster, value, claimed) in entries {
        run.scan(&mut report, FatKind::Fat16, cluster, value, claimed, &mut found);
    }
    run.flush_lost(&mut report, &mut found);
    assert_eq!(
        found,
        vec![
            Finding::LostClusters { first: 3, count: 2 },
            Finding::LostClusters { first: 7, count: 1 },
        ]
    );
    assert_eq!(
        (
            report.free_clusters(),
            report.bad_clusters(),
            report.used_clusters(),
            report.lost_clusters()
        ),
        (1, 1, 4, 3)
    );
    assert_eq!(report.count(FindingKind::LostClusters), 2);
    assert_eq!(run, LostRun::new());
    assert!(FatKind::Fat32.is_bad(0x0FFF_FFF7));
    assert!(!FatKind::Fat12.is_bad(0xFFF7));
}
