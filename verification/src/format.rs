//! What formatting writes besides the layout: the boot sector, the FAT32
//! FSInfo sector and the reserved entries at the start of each FAT.

use vstd::prelude::*;
use crate::boot::{
    bpb_at, bpb_ok, ext16_at, lemma_bpb_at_prefix, ext32_at, fs_info_at, spec_geometry16, spec_geometry32, Geometry,
    RawBpb, RawBpbExt16, RawBpbExt32, RawFsInfo, RootDir, BOOT_SIGNATURE, FSINFO_LEAD_SIG,
    FSINFO_STRUC_SIG, FSINFO_TRAIL_SIG,
};
use crate::kind::FatKind;
use crate::layout::{fat_bytes, fat_needed, Layout};
use crate::raw::put_array;

verus! {

/// The FSInfo sector's number on FAT32 volumes.
pub const FS_INFO_SECTOR: u16 = 1;
/// The backup boot sector's number on FAT32 volumes; the backup FSInfo
/// sector follows it.
pub const BACKUP_BOOT_SECTOR: u16 = 6;
/// The FAT32 root directory's cluster.
pub const ROOT_CLUSTER: u32 = 2;

/// Boot sector fields that do not follow from the layout.
#[derive(Debug, Clone, Copy)]
pub struct BootFields {
    /// `BS_OEMName`.
    pub oem_name: [u8; 8],
    /// `BPB_Media`.
    pub media: u8,
    /// `BPB_HiddSec`: sectors before the volume.
    pub hidden_sectors: u32,
    /// `BS_VolID`.
    pub volume_id: u32,
    /// `BS_VolLab`, or `None` for `NO NAME`.
    pub label: Option<[u8; 11]>,
}

/// Where the boot code starts: after the extended boot record.
pub open spec fn code_start(kind: FatKind) -> int {
    if kind == FatKind::Fat32 {
        0x5A
    } else {
        0x3E
    }
}

/// `int 18h` to try the next boot device, then halt, for a volume that is
/// booted by mistake.
pub open spec fn boot_stub() -> Seq<u8> {
    seq![0xCDu8, 0x18, 0xF4, 0xEB, 0xFD]
}

/// `NO NAME    `, the label of a volume without one.
pub open spec fn no_label() -> [u8; 11] {
    [0x4Eu8, 0x4F, 0x20, 0x4E, 0x41, 0x4D, 0x45, 0x20, 0x20, 0x20, 0x20]
}

/// `BS_FilSysType` of `kind`: `FAT12   `, `FAT16   ` or `FAT32   `.
pub open spec fn fs_type_name(kind: FatKind) -> [u8; 8] {
    match kind {
        FatKind::Fat12 => [0x46u8, 0x41, 0x54, 0x31, 0x32, 0x20, 0x20, 0x20],
        FatKind::Fat16 => [0x46u8, 0x41, 0x54, 0x31, 0x36, 0x20, 0x20, 0x20],
        FatKind::Fat32 => [0x46u8, 0x41, 0x54, 0x33, 0x32, 0x20, 0x20, 0x20],
    }
}

/// The volume label written: the given one or `NO NAME`.
pub open spec fn label_of(f: BootFields) -> [u8; 11] {
    match f.label {
        Some(label) => label,
        None => no_label(),
    }
}

/// `BS_DrvNum`: the first hard disk for fixed media, else the first floppy.
pub open spec fn drive_number(media: u8) -> u8 {
    if media == 0xF8 {
        0x80
    } else {
        0
    }
}

/// Whether the sector count goes in the 16-bit field: on FAT12/16 when it
/// fits.
pub open spec fn small_total(l: Layout) -> bool {
    l.kind != FatKind::Fat32 && l.total_sectors <= 0xFFFF
}

/// The BPB written for `l` and `f`.
pub open spec fn boot_bpb(l: Layout, f: BootFields) -> RawBpb {
    let fat32 = l.kind == FatKind::Fat32;
    RawBpb {
        jump: [0xEBu8, (code_start(l.kind) - 2) as u8, 0x90u8],
        oem_name: f.oem_name,
        bytes_per_sector: l.sector_size as u16,
        sectors_per_cluster: l.cluster_sectors as u8,
        reserved_sector_count: l.reserved_sectors,
        fat_count: l.fat_count,
        root_entry_count: l.root_entries,
        total_sectors_16: if small_total(l) {
            l.total_sectors as u16
        } else {
            0
        },
        media_type: f.media,
        sectors_per_fat_16: if fat32 {
            0
        } else {
            l.fat_sectors as u16
        },
        sectors_per_track: 63,
        num_heads: 255,
        hidden_sector_count: f.hidden_sectors,
        total_sectors_32: if small_total(l) {
            0
        } else {
            l.total_sectors
        },
    }
}

/// The FAT12/16 extended boot record written for `l` and `f`.
pub open spec fn boot_ext16(l: Layout, f: BootFields) -> RawBpbExt16 {
    RawBpbExt16 {
        drive_number: drive_number(f.media),
        ext_boot_signature: 0x29,
        volume_id: f.volume_id,
        volume_label: label_of(f),
        fs_type: fs_type_name(l.kind),
        signature_word: BOOT_SIGNATURE,
    }
}

/// The FAT32 extended boot record written for `l` and `f`.
pub open spec fn boot_ext32(l: Layout, f: BootFields) -> RawBpbExt32 {
    RawBpbExt32 {
        sectors_per_fat_32: l.fat_sectors,
        ext_flags: 0,
        version: 0,
        root_cluster: ROOT_CLUSTER,
        fs_info_sector: FS_INFO_SECTOR,
        boot_sector: BACKUP_BOOT_SECTOR,
        drive_number: drive_number(f.media),
        ext_boot_signature: 0x29,
        volume_id: f.volume_id,
        volume_label: label_of(f),
        fs_type: fs_type_name(FatKind::Fat32),
        signature_word: BOOT_SIGNATURE,
    }
}

/// Whether `s` is zero from `from` up to `to`.
pub open spec fn zero_between(s: Seq<u8>, from: int, to: int) -> bool {
    forall|j: int| from <= j < to ==> #[trigger] s[j] == 0
}

/// Whether `s` is the boot sector of `l` with `f`: the BPB, the extended
/// boot record of the variant, the boot stub after it, and zeros in every
/// other byte but the closing signature.
pub open spec fn boot_image(s: Seq<u8>, l: Layout, f: BootFields) -> bool {
    let code = code_start(l.kind);
    &&& s.len() == 512
    &&& bpb_at(s, boot_bpb(l, f))
    &&& s.subrange(code, code + 5) == boot_stub()
    &&& zero_between(s, code + 5, 510)
    &&& if l.kind == FatKind::Fat32 {
        &&& ext32_at(s, boot_ext32(l, f))
        &&& zero_between(s, 52, 64)
        &&& s[65] == 0
    } else {
        &&& ext16_at(s, boot_ext16(l, f))
        &&& s[37] == 0
    }
}

fn no_label_bytes() -> (a: [u8; 11])
    ensures
        a == no_label(),
{
    [0x4E, 0x4F, 0x20, 0x4E, 0x41, 0x4D, 0x45, 0x20, 0x20, 0x20, 0x20]
}

fn fs_type_bytes(kind: FatKind) -> (a: [u8; 8])
    ensures
        a == fs_type_name(kind),
{
    match kind {
        FatKind::Fat12 => [0x46, 0x41, 0x54, 0x31, 0x32, 0x20, 0x20, 0x20],
        FatKind::Fat16 => [0x46, 0x41, 0x54, 0x31, 0x36, 0x20, 0x20, 0x20],
        FatKind::Fat32 => [0x46, 0x41, 0x54, 0x33, 0x32, 0x20, 0x20, 0x20],
    }
}

/// The first 512 bytes of the boot sector.
pub fn encode_boot_sector(layout: &Layout, fields: &BootFields) -> (out: [u8; 512])
    ensures
        boot_image(out@, *layout, *fields),
{
    let fat32 = layout.kind == FatKind::Fat32;
    let small = !fat32 && layout.total_sectors <= 0xFFFF;
    let code_start: u8 = if fat32 {
        0x5A
    } else {
        0x3E
    };
    let bpb = RawBpb {
        jump: [0xEB, code_start - 2, 0x90],
        oem_name: fields.oem_name,
        bytes_per_sector: layout.sector_size as u16,
        sectors_per_cluster: layout.cluster_sectors as u8,
        reserved_sector_count: layout.reserved_sectors,
        fat_count: layout.fat_count,
        root_entry_count: layout.root_entries,
        total_sectors_16: if small {
            layout.total_sectors as u16
        } else {
            0
        },
        media_type: fields.media,
        sectors_per_fat_16: if fat32 {
            0
        } else {
            layout.fat_sectors as u16
        },
        sectors_per_track: 63,
        num_heads: 255,
        hidden_sector_count: fields.hidden_sectors,
        total_sectors_32: if small {
            0
        } else {
            layout.total_sectors
        },
    };
    assert(bpb == boot_bpb(*layout, *fields));
    let drive_number: u8 = if fields.media == 0xF8 {
        0x80
    } else {
        0x00
    };
    let label = match fields.label {
        Some(label) => label,
        None => no_label_bytes(),
    };
    let mut out = [0u8; 512];
    assert(zero_between(out@, 0, 512));
    bpb.store(&mut out);
    assert(zero_between(out@, 36, 512));
    let ghost stored = out@;
    if fat32 {
        let ext = RawBpbExt32 {
            sectors_per_fat_32: layout.fat_sectors,
            ext_flags: 0,
            version: 0,
            root_cluster: ROOT_CLUSTER,
            fs_info_sector: FS_INFO_SECTOR,
            boot_sector: BACKUP_BOOT_SECTOR,
            drive_number,
            ext_boot_signature: 0x29,
            volume_id: fields.volume_id,
            volume_label: label,
            fs_type: fs_type_bytes(FatKind::Fat32),
            signature_word: BOOT_SIGNATURE,
        };
        ext.store(&mut out);
    } else {
        let ext = RawBpbExt16 {
            drive_number,
            ext_boot_signature: 0x29,
            volume_id: fields.volume_id,
            volume_label: label,
            fs_type: fs_type_bytes(layout.kind),
            signature_word: BOOT_SIGNATURE,
        };
        ext.store(&mut out);
    }
    let ghost before = out@;
    proof {
        lemma_bpb_at_prefix(stored, before, boot_bpb(*layout, *fields));
    }
    put_array(&mut out, code_start as usize, &[0xCD, 0x18, 0xF4, 0xEB, 0xFD]);
    assert(bpb_at(before, boot_bpb(*layout, *fields)));
    assert(fat32 ==> ext32_at(before, boot_ext32(*layout, *fields)));
    assert(!fat32 ==> ext16_at(before, boot_ext16(*layout, *fields)));
    assert(zero_between(before, code_start as int, 510));
    proof {
        let s = out@;
        let c = code_start as int;
        assert(forall|j: int| 0 <= j < c ==> s[j] == before[j]);
        assert(forall|j: int| c + 5 <= j < 512 ==> s[j] == before[j]);
        lemma_bpb_at_prefix(before, s, boot_bpb(*layout, *fields));
        if fat32 {
            assert(s.subrange(71, 82) =~= before.subrange(71, 82));
            assert(s.subrange(82, 90) =~= before.subrange(82, 90));
        } else {
            assert(s.subrange(43, 54) =~= before.subrange(43, 54));
            assert(s.subrange(54, 62) =~= before.subrange(54, 62));
        }
        assert(bpb_at(s, boot_bpb(*layout, *fields)));
        assert(s.subrange(c, c + 5) == boot_stub());
        assert(zero_between(s, c + 5, 510));
        assert(fat32 ==> ext32_at(s, boot_ext32(*layout, *fields)));
        assert(!fat32 ==> ext16_at(s, boot_ext16(*layout, *fields)));
    }
    out
}

/// The byte layout a volume formatted with `l` has.
pub open spec fn layout_geometry(l: Layout) -> Geometry {
    let ss = l.sector_size as int;
    let fat_start = l.reserved_sectors * ss;
    let root_start = fat_start + l.fat_count * l.fat_sectors * ss;
    let root_size = l.root_entries as int * 32;
    Geometry {
        kind: l.kind,
        sector_size: l.sector_size,
        cluster_size: (l.cluster_sectors * ss) as u32,
        fat_start: fat_start as u64,
        fat_size: (l.fat_sectors * ss) as u64,
        fat_count: l.fat_count,
        root: if l.kind == FatKind::Fat32 {
            RootDir::Cluster(ROOT_CLUSTER)
        } else {
            RootDir::Fixed { start: root_start as u64, size: root_size as u64 }
        },
        data_start: (root_start + l.spec_root_sectors() * ss) as u64,
        max_cluster: (l.clusters + 1) as u32,
    }
}

/// The boot sector written for a layout that [`crate::layout::plan`] gives
/// reads back as that layout: its BPB and extended boot record pass the
/// checks, the geometry read from them is the layout's, each FAT holds an
/// entry for every cluster, and the label and volume id are those written.
pub proof fn lemma_boot_sector_parses_back(
    l: Layout,
    f: BootFields,
    s: Seq<u8>,
    bpb: RawBpb,
    ext16: RawBpbExt16,
    ext32: RawBpbExt32,
)
    requires
        l.wf(),
        boot_image(s, l, f),
        bpb_at(s, bpb),
        ext16_at(s, ext16),
        ext32_at(s, ext32),
    ensures
        bpb_ok(bpb),
        bpb.fat_count == 1 || bpb.fat_count == 2,
        (bpb.root_entry_count == 0 && bpb.sectors_per_fat_16 == 0) == (l.kind == FatKind::Fat32),
        l.kind == FatKind::Fat32 ==> {
            &&& ext32.signature_word == BOOT_SIGNATURE
            &&& ext32.version == 0
            &&& spec_geometry32(bpb, ext32) == Ok::<Geometry, crate::boot::BootError>(layout_geometry(l))
            &&& ext32.volume_label == label_of(f)
            &&& ext32.volume_id == f.volume_id
        },
        l.kind != FatKind::Fat32 ==> {
            &&& ext16.signature_word == BOOT_SIGNATURE
            &&& spec_geometry16(bpb) == Ok::<Geometry, crate::boot::BootError>(layout_geometry(l))
            &&& ext16.volume_label == label_of(f)
            &&& ext16.volume_id == f.volume_id
        },
        l.kind.spec_entry_offset((l.clusters + 1) as u64) + l.kind.spec_entry_len() <= l.fat_sectors
            * l.sector_size,
{
    let expected = boot_bpb(l, f);
    assert(bpb.jump =~= expected.jump);
    assert(bpb.oem_name =~= expected.oem_name);
    assert(bpb == expected);
    if l.kind == FatKind::Fat32 {
        assert(ext32.volume_label =~= label_of(f));
        assert(ext32.fs_type =~= fs_type_name(FatKind::Fat32));
        assert(ext32 == boot_ext32(l, f));
        assert(l.spec_root_sectors() == 0) by {
            vstd::arithmetic::div_mod::lemma_basic_div(l.sector_size as int - 1, l.sector_size as int);
        }
        assert(ext32.sectors_per_fat_32 * bpb.fat_count == l.fat_count * l.fat_sectors) by (nonlinear_arith)
            requires
                ext32.sectors_per_fat_32 == l.fat_sectors,
                bpb.fat_count == l.fat_count,
        ;
    } else {
        assert(ext16.volume_label =~= label_of(f));
        assert(ext16.fs_type =~= fs_type_name(l.kind));
        assert(ext16 == boot_ext16(l, f));
    }
    lemma_fat_covers(l);
}

/// A consistent layout's FATs hold an entry for every cluster.
proof fn lemma_fat_covers(l: Layout)
    requires
        l.wf(),
    ensures
        l.kind.spec_entry_offset((l.clusters + 1) as u64) + l.kind.spec_entry_len() <= l.fat_sectors
            * l.sector_size,
{
    let ss = l.sector_size as int;
    let c = l.clusters as int;
    let b = fat_bytes(l.kind, c);
    let fat = l.fat_sectors as int;
    assert(l.kind.spec_entry_offset((c + 1) as u64) + l.kind.spec_entry_len() <= b);
    assert(fat_needed(l.kind, l.spec_available(), l.cluster_sectors as int, l.fat_count as int, ss, fat) == crate::boot::ceil_div(b, ss));
    vstd::arithmetic::div_mod::lemma_fundamental_div_mod(b + ss - 1, ss);
    vstd::arithmetic::div_mod::lemma_mod_pos_bound(b + ss - 1, ss);
    assert(b <= fat * ss) by (nonlinear_arith)
        requires
            (b + ss - 1) / ss <= fat,
            b + ss - 1 == ss * ((b + ss - 1) / ss) + (b + ss - 1) % ss,
            (b + ss - 1) % ss < ss,
            ss >= 1,
    {
        assert(ss * ((b + ss - 1) / ss) <= ss * fat);
    }
}

/// Whether `s` is the FSInfo sector with `free` clusters and the search
/// hint `next`: the three signatures, the two counts, zeros elsewhere.
pub open spec fn fs_info_image(s: Seq<u8>, free: u32, next: u32) -> bool {
    &&& fs_info_at(
        s,
        RawFsInfo {
            signature: FSINFO_LEAD_SIG,
            structure_signature: FSINFO_STRUC_SIG,
            free_count: free,
            next_free: next,
            trail_signature: FSINFO_TRAIL_SIG,
        },
    )
    &&& zero_between(s, 4, 484)
    &&& zero_between(s, 496, 508)
}

/// The FAT32 FSInfo sector with `free` clusters and the search hint `next`.
pub fn encode_fs_info(free: u32, next: u32) -> (out: [u8; 512])
    ensures
        fs_info_image(out@, free, next),
{
    let info = RawFsInfo {
        signature: FSINFO_LEAD_SIG,
        structure_signature: FSINFO_STRUC_SIG,
        free_count: free,
        next_free: next,
        trail_signature: FSINFO_TRAIL_SIG,
    };
    let mut out = [0u8; 512];
    assert(zero_between(out@, 0, 512));
    info.store(&mut out);
    out
}

/// An FSInfo sector that was written reads back with valid signatures and
/// the counts written.
pub proof fn lemma_fs_info_parses_back(s: Seq<u8>, free: u32, next: u32, info: RawFsInfo)
    requires
        fs_info_image(s, free, next),
        fs_info_at(s, info),
    ensures
        info.signature == FSINFO_LEAD_SIG,
        info.structure_signature == FSINFO_STRUC_SIG,
        info.trail_signature == FSINFO_TRAIL_SIG,
        info.free_count == free,
        info.next_free == next,
{
}

/// The first reserved FAT entry: the media byte in the low bits, the rest
/// set.
pub open spec fn media_entry(kind: FatKind, media: u8) -> u32 {
    (kind.spec_mask() & !0xFFu32) | media as u32
}

/// How many reserved entries a FAT of `kind` starts with: the media entry,
/// the end-of-chain entry and, on FAT32, the root directory's cluster.
pub open spec fn reserved_count(kind: FatKind) -> int {
    if kind == FatKind::Fat32 {
        3
    } else {
        2
    }
}

/// The bytes of the reserved entries at the start of a FAT of `kind`.
pub open spec fn reserved_image(kind: FatKind, media: u8) -> Seq<u8> {
    let s0 = Seq::new(12, |i: int| 0u8);
    let s1 = kind.spec_encode(0, media_entry(kind, media), s0);
    let s2 = kind.spec_encode(1, kind.spec_mask(), s1);
    if kind == FatKind::Fat32 {
        kind.spec_encode(ROOT_CLUSTER as u64, kind.spec_end_of_chain(), s2)
    } else {
        s2
    }
}

/// The bytes of the reserved entries, little-endian like every entry: the
/// media byte, then set bits up to the entry's width; on FAT32 the top
/// four bits of each entry clear, and the root directory's entry an
/// end-of-chain mark.
pub proof fn lemma_reserved_image_bytes(media: u8)
    ensures
        reserved_image(FatKind::Fat12, media).take(3) == seq![media, 0xFFu8, 0xFF],
        reserved_image(FatKind::Fat16, media).take(4) == seq![media, 0xFFu8, 0xFF, 0xFF],
        reserved_image(FatKind::Fat32, media).take(12) == seq![
            media,
            0xFFu8,
            0xFF,
            0x0F,
            0xFF,
            0xFF,
            0xFF,
            0x0F,
            0xF8,
            0xFF,
            0xFF,
            0x0F,
        ],
{
    crate::kind::lemma_media_entry_value(media);
    let s0 = Seq::new(12, |i: int| 0u8);
    let k12 = FatKind::Fat12;
    let a1 = k12.spec_encode(0, media_entry(k12, media), s0);
    crate::kind::lemma_fat12_entry_bytes(0, media_entry(k12, media), s0);
    crate::kind::lemma_fat12_entry_bytes(1, k12.spec_mask(), a1);
    assert(reserved_image(k12, media).take(3) =~= seq![media, 0xFFu8, 0xFF]);
    let k16 = FatKind::Fat16;
    let b1 = k16.spec_encode(0, media_entry(k16, media), s0);
    crate::kind::lemma_fat16_entry_bytes(0, media_entry(k16, media), s0);
    crate::kind::lemma_fat16_entry_bytes(1, k16.spec_mask(), b1);
    assert(reserved_image(k16, media).take(4) =~= seq![media, 0xFFu8, 0xFF, 0xFF]);
    let k32 = FatKind::Fat32;
    let c1 = k32.spec_encode(0, media_entry(k32, media), s0);
    let c2 = k32.spec_encode(1, k32.spec_mask(), c1);
    crate::kind::lemma_fat32_entry_bytes(0, media_entry(k32, media), s0);
    crate::kind::lemma_fat32_entry_bytes(1, k32.spec_mask(), c1);
    crate::kind::lemma_fat32_entry_bytes(2, k32.spec_end_of_chain(), c2);
    assert(reserved_image(k32, media).take(12) =~= seq![
        media,
        0xFFu8,
        0xFF,
        0x0F,
        0xFF,
        0xFF,
        0xFF,
        0x0F,
        0xF8,
        0xFF,
        0xFF,
        0x0F,
    ]);
}

/// The reserved entries at the start of each FAT: the media byte, an
/// end-of-chain entry and, on FAT32, the root directory's cluster. Returns
/// the bytes and how many of them to write.
pub fn reserved_fat_entries(kind: FatKind, media: u8) -> (r: ([u8; 12], usize))
    ensures
        r.0@ == reserved_image(kind, media),
        r.1 == kind.spec_entry_offset((reserved_count(kind) - 1) as u64) + kind.spec_entry_len(),
        kind.spec_decode(0, r.0@) & kind.spec_mask() == media_entry(kind, media) & kind.spec_mask(),
        kind.spec_decode(1, r.0@) & kind.spec_mask() == kind.spec_mask(),
        kind == FatKind::Fat32 ==> kind.spec_decode(2, r.0@) & kind.spec_mask()
            == kind.spec_end_of_chain(),
{
    let mask = kind.mask();
    let mut entries = [0u8; 12];
    assert(entries@ =~= Seq::new(12, |i: int| 0u8));
    let first = (mask & !0xFFu32) | media as u32;
    let ghost s0 = entries@;
    kind.encode(0, first, &mut entries);
    let ghost s1 = entries@;
    kind.encode(1, mask, &mut entries);
    let ghost s2 = entries@;
    proof {
        crate::kind::lemma_decode_encode(kind, 0, first, s0);
        crate::kind::lemma_decode_encode(kind, 1, mask, s1);
        crate::kind::lemma_encode_keeps_other_entries(kind, 1, 0, mask, s1);
        assert(mask & mask == mask) by (bit_vector);
    }
    let count: u64 = if kind == FatKind::Fat32 {
        kind.encode(ROOT_CLUSTER as u64, kind.end_of_chain(), &mut entries);
        proof {
            let eoc = kind.spec_end_of_chain();
            crate::kind::lemma_decode_encode(kind, 2, eoc, s2);
            crate::kind::lemma_encode_keeps_other_entries(kind, 2, 0, eoc, s2);
            crate::kind::lemma_encode_keeps_other_entries(kind, 2, 1, eoc, s2);
            assert(0x0FFF_FFF8u32 & 0x0FFF_FFFF == 0x0FFF_FFF8u32) by (bit_vector);
        }
        3
    } else {
        2
    };
    let len = kind.entry_offset(count - 1) as usize + kind.entry_len();
    (entries, len)
}

} // verus!
