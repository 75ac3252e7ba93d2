//! The BIOS parameter block: its fields, validation, and the byte layout of
//! the volume it describes.

use vstd::prelude::*;
use crate::bytes::{get16, get32, read16, read32, write16, write32};
use crate::raw::{put_array, sub_array};
use crate::kind::{
    FatKind, FAT12_MAX_CLUSTERS, FAT16_MAX_CLUSTERS, FAT32_MAX_CLUSTERS, FIRST_DATA_CLUSTER,
};

verus! {

/// `FSI_LeadSig` of an FSInfo sector.
pub const FSINFO_LEAD_SIG: u32 = 0x4161_5252;
/// `FSI_StrucSig` of an FSInfo sector.
pub const FSINFO_STRUC_SIG: u32 = 0x6141_7272;
/// `FSI_TrailSig` of an FSInfo sector.
pub const FSINFO_TRAIL_SIG: u32 = 0xAA55_0000;
/// The last two bytes of a boot sector.
pub const BOOT_SIGNATURE: u16 = 0xAA55;
/// Bytes in the BPB common to every variant.
pub const BPB_LEN: usize = 36;

/// The BPB fields common to FAT12, FAT16 and FAT32, at the start of the
/// boot sector.
#[derive(Debug, Clone, Copy, PartialEq, Eq)]
pub struct RawBpb {
    /// `BS_jmpBoot`.
    pub jump: [u8; 3],
    /// `BS_OEMName`.
    pub oem_name: [u8; 8],
    /// `BPB_BytsPerSec`.
    pub bytes_per_sector: u16,
    /// `BPB_SecPerClus`.
    pub sectors_per_cluster: u8,
    /// `BPB_RsvdSecCnt`.
    pub reserved_sector_count: u16,
    /// `BPB_NumFATs`.
    pub fat_count: u8,
    /// `BPB_RootEntCnt`.
    pub root_entry_count: u16,
    /// `BPB_TotSec16`.
    pub total_sectors_16: u16,
    /// `BPB_Media`.
    pub media_type: u8,
    /// `BPB_FATSz16`.
    pub sectors_per_fat_16: u16,
    /// `BPB_SecPerTrk`.
    pub sectors_per_track: u16,
    /// `BPB_NumHeads`.
    pub num_heads: u16,
    /// `BPB_HiddSec`.
    pub hidden_sector_count: u32,
    /// `BPB_TotSec32`.
    pub total_sectors_32: u32,
}

/// The FAT12/16 extended boot record, after the BPB.
#[derive(Debug, Clone, Copy, PartialEq, Eq)]
pub struct RawBpbExt16 {
    /// `BS_DrvNum`.
    pub drive_number: u8,
    /// `BS_BootSig`.
    pub ext_boot_signature: u8,
    /// `BS_VolID`.
    pub volume_id: u32,
    /// `BS_VolLab`.
    pub volume_label: [u8; 11],
    /// `BS_FilSysType`.
    pub fs_type: [u8; 8],
    /// The boot sector's last two bytes.
    pub signature_word: u16,
}

/// The FAT32 extended boot record, after the BPB.
#[derive(Debug, Clone, Copy, PartialEq, Eq)]
pub struct RawBpbExt32 {
    /// `BPB_FATSz32`.
    pub sectors_per_fat_32: u32,
    /// `BPB_ExtFlags`.
    pub ext_flags: u16,
    /// `BPB_FSVer`.
    pub version: u16,
    /// `BPB_RootClus`.
    pub root_cluster: u32,
    /// `BPB_FSInfo`.
    pub fs_info_sector: u16,
    /// `BPB_BkBootSec`.
    pub boot_sector: u16,
    /// `BS_DrvNum`.
    pub drive_number: u8,
    /// `BS_BootSig`.
    pub ext_boot_signature: u8,
    /// `BS_VolID`.
    pub volume_id: u32,
    /// `BS_VolLab`.
    pub volume_label: [u8; 11],
    /// `BS_FilSysType`.
    pub fs_type: [u8; 8],
    /// The boot sector's last two bytes.
    pub signature_word: u16,
}

/// The fields of the FAT32 FSInfo sector that carry meaning.
#[derive(Debug, Clone, Copy, PartialEq, Eq)]
pub struct RawFsInfo {
    /// `FSI_LeadSig`.
    pub signature: u32,
    /// `FSI_StrucSig`.
    pub structure_signature: u32,
    /// `FSI_Free_Count`.
    pub free_count: u32,
    /// `FSI_Nxt_Free`.
    pub next_free: u32,
    /// `FSI_TrailSig`.
    pub trail_signature: u32,
}

impl RawBpb {
    /// A BPB with every field zero.
    pub fn zeroed() -> (b: Self)
        ensures
            b.bytes_per_sector == 0 && b.sectors_per_cluster == 0 && b.reserved_sector_count == 0
                && b.fat_count == 0 && b.root_entry_count == 0 && b.total_sectors_16 == 0
                && b.media_type == 0 && b.sectors_per_fat_16 == 0 && b.sectors_per_track == 0
                && b.num_heads == 0 && b.hidden_sector_count == 0 && b.total_sectors_32 == 0,
            b.jump@ == seq![0u8; 3],
            b.oem_name@ == seq![0u8; 8],
    {
        let b = RawBpb {
            jump: [0; 3],
            oem_name: [0; 8],
            bytes_per_sector: 0,
            sectors_per_cluster: 0,
            reserved_sector_count: 0,
            fat_count: 0,
            root_entry_count: 0,
            total_sectors_16: 0,
            media_type: 0,
            sectors_per_fat_16: 0,
            sectors_per_track: 0,
            num_heads: 0,
            hidden_sector_count: 0,
            total_sectors_32: 0,
        };
        assert(b.jump@ =~= seq![0u8; 3]);
        assert(b.oem_name@ =~= seq![0u8; 8]);
        b
    }
}

impl RawBpbExt16 {
    /// An extended boot record with every field zero.
    pub fn zeroed() -> (e: Self)
        ensures
            e.drive_number == 0 && e.ext_boot_signature == 0 && e.volume_id == 0
                && e.signature_word == 0,
            e.volume_label@ == seq![0u8; 11],
            e.fs_type@ == seq![0u8; 8],
    {
        let e = RawBpbExt16 {
            drive_number: 0,
            ext_boot_signature: 0,
            volume_id: 0,
            volume_label: [0; 11],
            fs_type: [0; 8],
            signature_word: 0,
        };
        assert(e.volume_label@ =~= seq![0u8; 11]);
        assert(e.fs_type@ =~= seq![0u8; 8]);
        e
    }
}

impl RawBpbExt32 {
    /// An extended boot record with every field zero.
    pub fn zeroed() -> (e: Self)
        ensures
            e.sectors_per_fat_32 == 0 && e.ext_flags == 0 && e.version == 0 && e.root_cluster == 0
                && e.fs_info_sector == 0 && e.boot_sector == 0 && e.drive_number == 0
                && e.ext_boot_signature == 0 && e.volume_id == 0 && e.signature_word == 0,
            e.volume_label@ == seq![0u8; 11],
            e.fs_type@ == seq![0u8; 8],
    {
        let e = RawBpbExt32 {
            sectors_per_fat_32: 0,
            ext_flags: 0,
            version: 0,
            root_cluster: 0,
            fs_info_sector: 0,
            boot_sector: 0,
            drive_number: 0,
            ext_boot_signature: 0,
            volume_id: 0,
            volume_label: [0; 11],
            fs_type: [0; 8],
            signature_word: 0,
        };
        assert(e.volume_label@ =~= seq![0u8; 11]);
        assert(e.fs_type@ =~= seq![0u8; 8]);
        e
    }
}

impl RawFsInfo {
    /// An FSInfo sector with every field zero.
    pub fn zeroed() -> (i: Self)
        ensures
            i.signature == 0 && i.structure_signature == 0 && i.free_count == 0 && i.next_free == 0
                && i.trail_signature == 0,
    {
        RawFsInfo { signature: 0, structure_signature: 0, free_count: 0, next_free: 0, trail_signature: 0 }
    }
}

/// Why a boot sector or FSInfo sector was rejected.
#[derive(Debug, Clone, Copy, PartialEq, Eq)]
pub enum BootError {
    /// A field violates the specification; the text names it.
    Corrupt(&'static str),
    /// The boot sector does not end in `0xAA55`.
    Signature(u16),
    /// The FAT32 root cluster is not a data cluster.
    RootCluster { cluster: u32, max: u32 },
    /// An FSInfo signature is wrong.
    FsInfoSignature { field: &'static str, expected: u32, found: u32 },
}

/// Where the root directory lives.
#[derive(Debug, Clone, Copy, PartialEq, Eq, Structural)]
pub enum RootDir {
    /// FAT12/16: a fixed region of `size` bytes at byte `start`.
    Fixed { start: u64, size: u64 },
    /// FAT32: an ordinary cluster chain.
    Cluster(u32),
}

/// Byte layout of a FAT volume, derived from a validated boot sector.
#[derive(Debug, Clone, Copy, PartialEq, Eq, Structural)]
pub struct Geometry {
    /// The variant.
    pub kind: FatKind,
    /// Bytes per sector.
    pub sector_size: u32,
    /// Bytes per cluster.
    pub cluster_size: u32,
    /// Byte offset of the first FAT.
    pub fat_start: u64,
    /// Bytes in one FAT copy.
    pub fat_size: u64,
    /// FAT copies.
    pub fat_count: u8,
    /// Where the root directory is.
    pub root: RootDir,
    /// Byte offset of cluster 2.
    pub data_start: u64,
    /// The highest valid cluster number; clusters start at 2.
    pub max_cluster: u32,
}

impl Geometry {
    /// Byte offset of `cluster`'s first byte, or `None` when `cluster` is
    /// not a data cluster.
    pub fn cluster_offset(&self, cluster: u32) -> (r: Option<u64>)
        requires
            self.data_start + self.max_cluster * self.cluster_size <= u64::MAX,
        ensures
            r == (if cluster < FIRST_DATA_CLUSTER || cluster > self.max_cluster {
                None
            } else {
                Some((self.data_start + (cluster - FIRST_DATA_CLUSTER) * self.cluster_size) as u64)
            }),
    {
        if cluster < FIRST_DATA_CLUSTER || cluster > self.max_cluster {
            return None;
        }
        proof {
            vstd::arithmetic::mul::lemma_mul_inequality(
                (cluster - FIRST_DATA_CLUSTER) as int,
                self.max_cluster as int,
                self.cluster_size as int,
            );
        }
        Some(self.data_start + (cluster - FIRST_DATA_CLUSTER) as u64 * self.cluster_size as u64)
    }
}

/// Whether `n` is one of the allowed sector sizes.
pub open spec fn valid_sector_size(n: int) -> bool {
    n == 512 || n == 1024 || n == 2048 || n == 4096
}

/// Whether `n` is a power of two from 1 through 128.
pub open spec fn valid_cluster_sectors(n: int) -> bool {
    n == 1 || n == 2 || n == 4 || n == 8 || n == 16 || n == 32 || n == 64 || n == 128
}

/// Whether the fields common to every variant are valid.
pub open spec fn bpb_ok(bpb: RawBpb) -> bool {
    &&& valid_sector_size(bpb.bytes_per_sector as int)
    &&& valid_cluster_sectors(bpb.sectors_per_cluster as int)
    &&& bpb.sectors_per_cluster * bpb.bytes_per_sector <= 32 * 1024
}

/// Checks the fields common to every FAT variant: sector size, sectors per
/// cluster and cluster size.
pub fn check_bpb(bpb: &RawBpb) -> (r: Result<(), BootError>)
    ensures
        r is Ok <==> bpb_ok(*bpb),
        r is Err ==> r->Err_0 is Corrupt,
{
    let sector_size = bpb.bytes_per_sector as u32;
    if !(sector_size == 512 || sector_size == 1024 || sector_size == 2048 || sector_size == 4096) {
        return Err(BootError::Corrupt("BPB bytes_per_sector must be 512, 1024, 2048, or 4096"));
    }
    let spc = bpb.sectors_per_cluster;
    if !(spc == 1 || spc == 2 || spc == 4 || spc == 8 || spc == 16 || spc == 32 || spc == 64 || spc
        == 128) {
        return Err(
            BootError::Corrupt("BPB sectors_per_cluster must be a power of two from 1 through 128"),
        );
    }
    if spc as u32 * sector_size > 32 * 1024 {
        return Err(BootError::Corrupt("BPB cluster size must not exceed 32 KiB"));
    }
    Ok(())
}

/// Whether the BPB describes a FAT32 layout: no fixed root directory and no
/// 16-bit FAT size.
pub fn is_fat32(bpb: &RawBpb) -> (r: bool)
    ensures
        r == (bpb.root_entry_count == 0 && bpb.sectors_per_fat_16 == 0),
{
    bpb.root_entry_count == 0 && bpb.sectors_per_fat_16 == 0
}

/// Fails unless there are one or two FATs.
pub fn check_fat_count(bpb: &RawBpb) -> (r: Result<(), BootError>)
    ensures
        r is Ok <==> (bpb.fat_count == 1 || bpb.fat_count == 2),
        r is Err ==> r->Err_0 is Corrupt,
{
    if bpb.fat_count != 1 && bpb.fat_count != 2 {
        return Err(BootError::Corrupt("BPB fat_count must be 1 or 2"));
    }
    Ok(())
}

/// Checks the FAT12/16 extended boot record: the signature first, then the
/// FAT count.
pub fn check_ext16(bpb: &RawBpb, ext: &RawBpbExt16) -> (r: Result<(), BootError>)
    ensures
        ext.signature_word != BOOT_SIGNATURE ==> r == Err::<(), BootError>(
            BootError::Signature(ext.signature_word),
        ),
        ext.signature_word == BOOT_SIGNATURE ==> (r is Ok <==> (bpb.fat_count == 1
            || bpb.fat_count == 2)),
        ext.signature_word == BOOT_SIGNATURE && r is Err ==> r->Err_0 is Corrupt,
{
    let signature = ext.signature_word;
    if signature != BOOT_SIGNATURE {
        return Err(BootError::Signature(signature));
    }
    check_fat_count(bpb)
}

/// Checks the FAT32 extended boot record: the signature, the version 0.0,
/// then the FAT count.
pub fn check_ext32(bpb: &RawBpb, ext: &RawBpbExt32) -> (r: Result<(), BootError>)
    ensures
        ext.signature_word != BOOT_SIGNATURE ==> r == Err::<(), BootError>(
            BootError::Signature(ext.signature_word),
        ),
        ext.signature_word == BOOT_SIGNATURE ==> (r is Ok <==> (ext.version == 0 && (bpb.fat_count
            == 1 || bpb.fat_count == 2))),
        ext.signature_word == BOOT_SIGNATURE && r is Err ==> r->Err_0 is Corrupt,
{
    let signature = ext.signature_word;
    if signature != BOOT_SIGNATURE {
        return Err(BootError::Signature(signature));
    }
    if ext.version != 0 {
        return Err(BootError::Corrupt("unsupported FAT32 filesystem version"));
    }
    check_fat_count(bpb)
}

/// Checks the three FSInfo signatures, in order, and names the first that
/// is wrong.
pub fn check_fs_info(info: &RawFsInfo) -> (r: Result<(), BootError>)
    ensures
        r is Ok <==> (info.signature == FSINFO_LEAD_SIG && info.structure_signature
            == FSINFO_STRUC_SIG && info.trail_signature == FSINFO_TRAIL_SIG),
        info.signature != FSINFO_LEAD_SIG ==> (r matches Err(
            BootError::FsInfoSignature { field, expected, found },
        ) && field@ == "FSI_LeadSig"@ && expected == FSINFO_LEAD_SIG && found == info.signature),
        info.signature == FSINFO_LEAD_SIG && info.structure_signature != FSINFO_STRUC_SIG ==> (r matches Err(
            BootError::FsInfoSignature { field, expected, found },
        ) && field@ == "FSI_StrucSig"@ && expected == FSINFO_STRUC_SIG && found
            == info.structure_signature),
        info.signature == FSINFO_LEAD_SIG && info.structure_signature == FSINFO_STRUC_SIG
            && info.trail_signature != FSINFO_TRAIL_SIG ==> (r matches Err(
            BootError::FsInfoSignature { field, expected, found },
        ) && field@ == "FSI_TrailSig"@ && expected == FSINFO_TRAIL_SIG && found
            == info.trail_signature),
{
    if info.signature != FSINFO_LEAD_SIG {
        return Err(
            BootError::FsInfoSignature {
                field: "FSI_LeadSig",
                expected: FSINFO_LEAD_SIG,
                found: info.signature,
            },
        );
    }
    if info.structure_signature != FSINFO_STRUC_SIG {
        return Err(
            BootError::FsInfoSignature {
                field: "FSI_StrucSig",
                expected: FSINFO_STRUC_SIG,
                found: info.structure_signature,
            },
        );
    }
    if info.trail_signature != FSINFO_TRAIL_SIG {
        return Err(
            BootError::FsInfoSignature {
                field: "FSI_TrailSig",
                expected: FSINFO_TRAIL_SIG,
                found: info.trail_signature,
            },
        );
    }
    Ok(())
}

/// The volume's sector count: the 16-bit field unless it is zero.
pub open spec fn spec_total_sectors(bpb: RawBpb) -> int {
    if bpb.total_sectors_16 != 0 {
        bpb.total_sectors_16 as int
    } else {
        bpb.total_sectors_32 as int
    }
}

/// The volume's sector count: the 16-bit field unless it is zero.
pub fn total_sectors(bpb: &RawBpb) -> (n: u64)
    ensures
        n == spec_total_sectors(*bpb),
{
    if bpb.total_sectors_16 != 0 {
        bpb.total_sectors_16 as u64
    } else {
        bpb.total_sectors_32 as u64
    }
}

/// The clusters in the sectors after `metadata`, none when there are fewer.
pub open spec fn spec_clusters(bpb: RawBpb, metadata: int) -> int {
    let left = spec_total_sectors(bpb) - metadata;
    if left <= 0 {
        0
    } else {
        left / bpb.sectors_per_cluster as int
    }
}

/// The clusters in the sectors after the first `metadata_sectors`.
pub fn clusters(bpb: &RawBpb, metadata_sectors: u64) -> (r: Result<u64, BootError>)
    ensures
        bpb.sectors_per_cluster == 0 ==> r == Err::<u64, BootError>(
            BootError::Corrupt("BPB sectors_per_cluster must not be zero"),
        ),
        bpb.sectors_per_cluster != 0 ==> r == Ok::<u64, BootError>(
            spec_clusters(*bpb, metadata_sectors as int) as u64,
        ),
{
    let total = total_sectors(bpb);
    let left = if total > metadata_sectors {
        total - metadata_sectors
    } else {
        0
    };
    if bpb.sectors_per_cluster == 0 {
        return Err(BootError::Corrupt("BPB sectors_per_cluster must not be zero"));
    }
    Ok(left / bpb.sectors_per_cluster as u64)
}

/// `a / b` rounded up.
pub open spec fn ceil_div(a: int, b: int) -> int {
    (a + b - 1) / b
}

/// The FAT12/16 layout of `bpb`: metadata sectors, cluster count and the
/// geometry they give.
pub open spec fn spec_geometry16(bpb: RawBpb) -> Result<Geometry, BootError> {
    let ss = bpb.bytes_per_sector as int;
    let reserved = bpb.reserved_sector_count as int;
    let fat_sectors = bpb.sectors_per_fat_16 as int;
    let root_size = bpb.root_entry_count as int * 32;
    let root_sectors = ceil_div(root_size, ss);
    let fat_start = reserved * ss;
    let root_start = fat_start + bpb.fat_count * fat_sectors * ss;
    let count = spec_clusters(bpb, reserved + bpb.fat_count * fat_sectors + root_sectors);
    if root_size == 0 {
        Err(BootError::Corrupt("BPB root_entry_count must not be zero on FAT12/16"))
    } else if bpb.sectors_per_cluster == 0 {
        Err(BootError::Corrupt("BPB sectors_per_cluster must not be zero"))
    } else if count > FAT16_MAX_CLUSTERS {
        Err(BootError::Corrupt("FAT12/16 layout has more clusters than FAT16 can address"))
    } else {
        Ok(
            Geometry {
                kind: if count <= FAT12_MAX_CLUSTERS {
                    FatKind::Fat12
                } else {
                    FatKind::Fat16
                },
                sector_size: ss as u32,
                cluster_size: (bpb.sectors_per_cluster * ss) as u32,
                fat_start: fat_start as u64,
                fat_size: (fat_sectors * ss) as u64,
                fat_count: bpb.fat_count,
                root: RootDir::Fixed { start: root_start as u64, size: root_size as u64 },
                data_start: (root_start + root_sectors * ss) as u64,
                max_cluster: (count + 1) as u32,
            },
        )
    }
}

/// The geometry of a FAT12/16 volume. FAT12 when it has fewer than 4085
/// clusters. A layout with more clusters than FAT16 addresses, or without a
/// root directory, is rejected, since by count it would be FAT32. Expects
/// [`check_bpb`] and [`check_ext16`] to have passed.
pub fn geometry16(bpb: &RawBpb) -> (r: Result<Geometry, BootError>)
    requires
        bpb.root_entry_count > 0 ==> bpb.bytes_per_sector > 0,
    ensures
        r == spec_geometry16(*bpb),
{
    let sector_size = bpb.bytes_per_sector as u64;
    let reserved = bpb.reserved_sector_count as u64;
    let fat_sectors = bpb.sectors_per_fat_16 as u64;
    let root_size = bpb.root_entry_count as u64 * 32;
    if root_size == 0 {
        return Err(BootError::Corrupt("BPB root_entry_count must not be zero on FAT12/16"));
    }
    let root_sectors = (root_size + sector_size - 1) / sector_size;
    assert(root_sectors <= root_size) by (nonlinear_arith)
        requires
            root_sectors == (root_size + sector_size - 1) as int / sector_size as int,
            root_size >= 1,
            sector_size >= 1,
    {
        assert(root_size + sector_size - 1 <= root_size * sector_size);
    }
    assert(reserved * sector_size <= 65535 * 65535) by (nonlinear_arith)
        requires
            reserved <= 65535,
            sector_size <= 65535,
    ;
    assert(bpb.fat_count as u64 * fat_sectors * sector_size <= 255 * 65535 * 65535) by (nonlinear_arith)
        requires
            bpb.fat_count <= 255,
            fat_sectors <= 65535,
            sector_size <= 65535,
    ;
    assert(root_sectors * sector_size <= 65535 * 32 * 65535) by (nonlinear_arith)
        requires
            root_sectors <= root_size,
            root_size <= 65535 * 32,
            sector_size <= 65535,
    ;
    assert(bpb.fat_count as u64 * fat_sectors <= 255 * 65535) by (nonlinear_arith)
        requires
            bpb.fat_count <= 255,
            fat_sectors <= 65535,
    ;
    assert(fat_sectors * sector_size <= 65535 * 65535) by (nonlinear_arith)
        requires
            fat_sectors <= 65535,
            sector_size <= 65535,
    ;
    assert(bpb.sectors_per_cluster as u32 * sector_size as u32 <= 255 * 65535) by (nonlinear_arith)
        requires
            bpb.sectors_per_cluster <= 255,
            sector_size <= 65535,
    ;
    let fat_start = reserved * sector_size;
    let root_start = fat_start + bpb.fat_count as u64 * fat_sectors * sector_size;
    let count = clusters(bpb, reserved + bpb.fat_count as u64 * fat_sectors + root_sectors)?;
    if count > FAT16_MAX_CLUSTERS as u64 {
        return Err(BootError::Corrupt("FAT12/16 layout has more clusters than FAT16 can address"));
    }
    let g = Geometry {
        kind: if count <= FAT12_MAX_CLUSTERS as u64 {
            FatKind::Fat12
        } else {
            FatKind::Fat16
        },
        sector_size: sector_size as u32,
        cluster_size: bpb.sectors_per_cluster as u32 * sector_size as u32,
        fat_start,
        fat_size: fat_sectors * sector_size,
        fat_count: bpb.fat_count,
        root: RootDir::Fixed { start: root_start, size: root_size },
        data_start: root_start + root_sectors * sector_size,
        max_cluster: count as u32 + 1,
    };
    assert(g == spec_geometry16(*bpb)->Ok_0);
    Ok(g)
}


/// The FAT32 layout of `bpb` and `ext`.
pub open spec fn spec_geometry32(bpb: RawBpb, ext: RawBpbExt32) -> Result<Geometry, BootError> {
    let ss = bpb.bytes_per_sector as int;
    let reserved = bpb.reserved_sector_count as int;
    let fat_sectors = ext.sectors_per_fat_32 as int;
    let fat_start = reserved * ss;
    let count = spec_clusters(bpb, reserved + fat_sectors * bpb.fat_count);
    let max_cluster = count + 1;
    let root = ext.root_cluster;
    if bpb.sectors_per_cluster == 0 {
        Err(BootError::Corrupt("BPB sectors_per_cluster must not be zero"))
    } else if count > FAT32_MAX_CLUSTERS {
        Err(BootError::Corrupt("FAT32 layout has more clusters than FAT32 can address"))
    } else if root < FIRST_DATA_CLUSTER || root > max_cluster {
        Err(BootError::RootCluster { cluster: root, max: max_cluster as u32 })
    } else {
        Ok(
            Geometry {
                kind: FatKind::Fat32,
                sector_size: ss as u32,
                cluster_size: (bpb.sectors_per_cluster * ss) as u32,
                fat_start: fat_start as u64,
                fat_size: (fat_sectors * ss) as u64,
                fat_count: bpb.fat_count,
                root: RootDir::Cluster(root),
                data_start: (fat_start + bpb.fat_count * fat_sectors * ss) as u64,
                max_cluster: max_cluster as u32,
            },
        )
    }
}

/// The geometry of a FAT32 volume. A layout with more clusters than FAT32
/// addresses is rejected. One with fewer than 65525 clusters, which by
/// count would be FAT16, is read as FAT32. Expects [`check_bpb`] and
/// [`check_ext32`] to have passed.
pub fn geometry32(bpb: &RawBpb, ext: &RawBpbExt32) -> (r: Result<Geometry, BootError>)
    ensures
        r == spec_geometry32(*bpb, *ext),
{
    let sector_size = bpb.bytes_per_sector as u64;
    let reserved = bpb.reserved_sector_count as u64;
    let fat_sectors = ext.sectors_per_fat_32 as u64;
    assert(reserved * sector_size <= 65535 * 65535) by (nonlinear_arith)
        requires
            reserved <= 65535,
            sector_size <= 65535,
    ;
    assert(fat_sectors * bpb.fat_count as u64 <= 0xFFFF_FFFF * 255) by (nonlinear_arith)
        requires
            bpb.fat_count <= 255,
            fat_sectors <= 0xFFFF_FFFF,
    ;
    assert(bpb.fat_count as u64 * fat_sectors * sector_size <= 255 * 0xFFFF_FFFF * 65535) by (nonlinear_arith)
        requires
            bpb.fat_count <= 255,
            fat_sectors <= 0xFFFF_FFFF,
            sector_size <= 65535,
    ;
    assert(fat_sectors * sector_size <= 0xFFFF_FFFF * 65535) by (nonlinear_arith)
        requires
            fat_sectors <= 0xFFFF_FFFF,
            sector_size <= 65535,
    ;
    assert(bpb.sectors_per_cluster as u32 * sector_size as u32 <= 255 * 65535) by (nonlinear_arith)
        requires
            bpb.sectors_per_cluster <= 255,
            sector_size <= 65535,
    ;
    let fat_start = reserved * sector_size;
    let count = clusters(bpb, reserved + fat_sectors * bpb.fat_count as u64)?;
    if count > FAT32_MAX_CLUSTERS as u64 {
        return Err(BootError::Corrupt("FAT32 layout has more clusters than FAT32 can address"));
    }
    let max_cluster = count as u32 + 1;
    let root = ext.root_cluster;
    if root < FIRST_DATA_CLUSTER || root > max_cluster {
        return Err(BootError::RootCluster { cluster: root, max: max_cluster });
    }
    let g = Geometry {
        kind: FatKind::Fat32,
        sector_size: sector_size as u32,
        cluster_size: bpb.sectors_per_cluster as u32 * sector_size as u32,
        fat_start,
        fat_size: fat_sectors * sector_size,
        fat_count: bpb.fat_count,
        root: RootDir::Cluster(root),
        data_start: fat_start + bpb.fat_count as u64 * fat_sectors * sector_size,
        max_cluster,
    };
    assert(g == spec_geometry32(*bpb, *ext)->Ok_0);
    Ok(g)
}

/// Whether `b` is the BPB at the start of `s`.
pub open spec fn bpb_at(s: Seq<u8>, b: RawBpb) -> bool {
    &&& BPB_LEN <= s.len()
    &&& s.subrange(0, 3) == b.jump@
    &&& s.subrange(3, 11) == b.oem_name@
    &&& get16(s, 11) == b.bytes_per_sector
    &&& s[13] == b.sectors_per_cluster
    &&& get16(s, 14) == b.reserved_sector_count
    &&& s[16] == b.fat_count
    &&& get16(s, 17) == b.root_entry_count
    &&& get16(s, 19) == b.total_sectors_16
    &&& s[21] == b.media_type
    &&& get16(s, 22) == b.sectors_per_fat_16
    &&& get16(s, 24) == b.sectors_per_track
    &&& get16(s, 26) == b.num_heads
    &&& get32(s, 28) == b.hidden_sector_count
    &&& get32(s, 32) == b.total_sectors_32
}

/// Whether `e` is the FAT12/16 extended boot record of the boot sector `s`.
pub open spec fn ext16_at(s: Seq<u8>, e: RawBpbExt16) -> bool {
    &&& s.len() == 512
    &&& s[36] == e.drive_number
    &&& s[38] == e.ext_boot_signature
    &&& get32(s, 39) == e.volume_id
    &&& s.subrange(43, 54) == e.volume_label@
    &&& s.subrange(54, 62) == e.fs_type@
    &&& get16(s, 510) == e.signature_word
}

/// Whether `e` is the FAT32 extended boot record of the boot sector `s`.
pub open spec fn ext32_at(s: Seq<u8>, e: RawBpbExt32) -> bool {
    &&& s.len() == 512
    &&& get32(s, 36) == e.sectors_per_fat_32
    &&& get16(s, 40) == e.ext_flags
    &&& get16(s, 42) == e.version
    &&& get32(s, 44) == e.root_cluster
    &&& get16(s, 48) == e.fs_info_sector
    &&& get16(s, 50) == e.boot_sector
    &&& s[64] == e.drive_number
    &&& s[66] == e.ext_boot_signature
    &&& get32(s, 67) == e.volume_id
    &&& s.subrange(71, 82) == e.volume_label@
    &&& s.subrange(82, 90) == e.fs_type@
    &&& get16(s, 510) == e.signature_word
}

/// Whether `i` is the FSInfo sector `s`.
pub open spec fn fs_info_at(s: Seq<u8>, i: RawFsInfo) -> bool {
    &&& s.len() == 512
    &&& get32(s, 0) == i.signature
    &&& get32(s, 484) == i.structure_signature
    &&& get32(s, 488) == i.free_count
    &&& get32(s, 492) == i.next_free
    &&& get32(s, 508) == i.trail_signature
}

/// The BPB depends on the first [`BPB_LEN`] bytes alone.
pub proof fn lemma_bpb_at_prefix(s: Seq<u8>, t: Seq<u8>, b: RawBpb)
    requires
        bpb_at(s, b),
        BPB_LEN <= t.len(),
        forall|j: int| 0 <= j < BPB_LEN ==> #[trigger] t[j] == s[j],
    ensures
        bpb_at(t, b),
{
    assert(t.subrange(0, 3) =~= s.subrange(0, 3));
    assert(t.subrange(3, 11) =~= s.subrange(3, 11));
}

impl RawBpb {
    /// The BPB at the start of `sector`.
    pub fn parse(sector: &[u8]) -> (b: Self)
        requires
            BPB_LEN <= sector@.len(),
        ensures
            bpb_at(sector@, b),
    {
        RawBpb {
            jump: sub_array::<3>(sector, 0),
            oem_name: sub_array::<8>(sector, 3),
            bytes_per_sector: read16(sector, 11),
            sectors_per_cluster: sector[13],
            reserved_sector_count: read16(sector, 14),
            fat_count: sector[16],
            root_entry_count: read16(sector, 17),
            total_sectors_16: read16(sector, 19),
            media_type: sector[21],
            sectors_per_fat_16: read16(sector, 22),
            sectors_per_track: read16(sector, 24),
            num_heads: read16(sector, 26),
            hidden_sector_count: read32(sector, 28),
            total_sectors_32: read32(sector, 32),
        }
    }

    /// Stores the BPB at the start of `out`, leaving the rest alone.
    pub fn store(&self, out: &mut [u8])
        requires
            BPB_LEN <= old(out)@.len(),
        ensures
            final(out)@.len() == old(out)@.len(),
            bpb_at(final(out)@, *self),
            forall|j: int| BPB_LEN <= j < old(out)@.len() ==> #[trigger] final(out)@[j] == old(out)@[j],
    {
        put_array(out, 0, &self.jump);
        put_array(out, 3, &self.oem_name);
        write16(out, 11, self.bytes_per_sector);
        out[13] = self.sectors_per_cluster;
        write16(out, 14, self.reserved_sector_count);
        out[16] = self.fat_count;
        write16(out, 17, self.root_entry_count);
        write16(out, 19, self.total_sectors_16);
        out[21] = self.media_type;
        write16(out, 22, self.sectors_per_fat_16);
        write16(out, 24, self.sectors_per_track);
        write16(out, 26, self.num_heads);
        write32(out, 28, self.hidden_sector_count);
        write32(out, 32, self.total_sectors_32);
        assert(out@.subrange(0, 3) =~= self.jump@);
        assert(out@.subrange(3, 11) =~= self.oem_name@);
    }
}

impl RawBpbExt16 {
    /// The FAT12/16 extended boot record of the boot sector `sector`.
    pub fn parse(sector: &[u8]) -> (e: Self)
        requires
            sector@.len() == 512,
        ensures
            ext16_at(sector@, e),
    {
        RawBpbExt16 {
            drive_number: sector[36],
            ext_boot_signature: sector[38],
            volume_id: read32(sector, 39),
            volume_label: sub_array::<11>(sector, 43),
            fs_type: sub_array::<8>(sector, 54),
            signature_word: read16(sector, 510),
        }
    }

    /// Stores the record in the boot sector `out`, leaving the bytes it has
    /// no field for alone.
    pub fn store(&self, out: &mut [u8])
        requires
            old(out)@.len() == 512,
        ensures
            ext16_at(final(out)@, *self),
            forall|j: int|
                0 <= j < 512 && !(j == 36 || 38 <= j < 62 || 510 <= j < 512) ==> #[trigger] final(out)@[j] == old(out)@[j],
    {
        out[36] = self.drive_number;
        out[38] = self.ext_boot_signature;
        write32(out, 39, self.volume_id);
        let ghost id = out@;
        put_array(out, 43, &self.volume_label);
        put_array(out, 54, &self.fs_type);
        write16(out, 510, self.signature_word);
        assert(out@.subrange(43, 54) =~= self.volume_label@);
        assert(out@.subrange(54, 62) =~= self.fs_type@);
        assert(out@[39] == id[39] && out@[40] == id[40] && out@[41] == id[41] && out@[42] == id[42]);
    }
}

impl RawBpbExt32 {
    /// The FAT32 extended boot record of the boot sector `sector`.
    pub fn parse(sector: &[u8]) -> (e: Self)
        requires
            sector@.len() == 512,
        ensures
            ext32_at(sector@, e),
    {
        RawBpbExt32 {
            sectors_per_fat_32: read32(sector, 36),
            ext_flags: read16(sector, 40),
            version: read16(sector, 42),
            root_cluster: read32(sector, 44),
            fs_info_sector: read16(sector, 48),
            boot_sector: read16(sector, 50),
            drive_number: sector[64],
            ext_boot_signature: sector[66],
            volume_id: read32(sector, 67),
            volume_label: sub_array::<11>(sector, 71),
            fs_type: sub_array::<8>(sector, 82),
            signature_word: read16(sector, 510),
        }
    }

    /// Stores the record in the boot sector `out`, leaving the bytes it has
    /// no field for alone.
    pub fn store(&self, out: &mut [u8])
        requires
            old(out)@.len() == 512,
        ensures
            ext32_at(final(out)@, *self),
            forall|j: int|
                0 <= j < 512 && !(36 <= j < 52 || j == 64 || 66 <= j < 90 || 510 <= j < 512)
                    ==> #[trigger] final(out)@[j] == old(out)@[j],
    {
        write32(out, 36, self.sectors_per_fat_32);
        write16(out, 40, self.ext_flags);
        write16(out, 42, self.version);
        write32(out, 44, self.root_cluster);
        write16(out, 48, self.fs_info_sector);
        write16(out, 50, self.boot_sector);
        let ghost head = out@;
        out[64] = self.drive_number;
        out[66] = self.ext_boot_signature;
        write32(out, 67, self.volume_id);
        let ghost id = out@;
        put_array(out, 71, &self.volume_label);
        put_array(out, 82, &self.fs_type);
        write16(out, 510, self.signature_word);
        assert(out@.subrange(71, 82) =~= self.volume_label@);
        assert(out@.subrange(82, 90) =~= self.fs_type@);
        assert(out@[67] == id[67] && out@[68] == id[68] && out@[69] == id[69] && out@[70] == id[70]);
        assert(forall|j: int| 36 <= j < 52 ==> out@[j] == head[j]);
        assert(get32(out@, 36) == get32(head, 36));
        assert(get16(out@, 40) == get16(head, 40));
        assert(get16(out@, 42) == get16(head, 42));
        assert(get32(out@, 44) == get32(head, 44));
        assert(get16(out@, 48) == get16(head, 48));
        assert(get16(out@, 50) == get16(head, 50));
    }
}

impl RawFsInfo {
    /// The FSInfo sector `sector`.
    pub fn parse(sector: &[u8]) -> (i: Self)
        requires
            sector@.len() == 512,
        ensures
            fs_info_at(sector@, i),
    {
        RawFsInfo {
            signature: read32(sector, 0),
            structure_signature: read32(sector, 484),
            free_count: read32(sector, 488),
            next_free: read32(sector, 492),
            trail_signature: read32(sector, 508),
        }
    }

    /// Stores the fields in the FSInfo sector `out`, leaving the reserved
    /// bytes alone.
    pub fn store(&self, out: &mut [u8])
        requires
            old(out)@.len() == 512,
        ensures
            fs_info_at(final(out)@, *self),
            forall|j: int|
                0 <= j < 512 && !(0 <= j < 4 || 484 <= j < 496 || 508 <= j < 512) ==> #[trigger] final(out)@[j] == old(out)@[j],
    {
        write32(out, 0, self.signature);
        write32(out, 484, self.structure_signature);
        write32(out, 488, self.free_count);
        write32(out, 492, self.next_free);
        write32(out, 508, self.trail_signature);
    }
}

} // verus!
