//! The exFAT boot sector `format` writes, and the boot region checksum.

use vstd::prelude::*;
use crate::bytes::{get16, get32, get64, write16, write32, write64};
use crate::exfat::mkfs::{Layout, FIRST_CLUSTER};
use crate::exfat::upcase::table_step;

verus! {

/// `JumpBoot` of the boot sector.
pub const JUMP_BOOT: [u8; 3] = [0xEB, 0x76, 0x90];
/// `FileSystemName` of the boot sector, `"EXFAT   "`.
pub const FILE_SYSTEM_NAME: [u8; 8] = [0x45, 0x58, 0x46, 0x41, 0x54, 0x20, 0x20, 0x20];
/// `BootSignature` of the boot sector.
pub const BOOT_SIGNATURE: u16 = 0xAA55;
/// `ExtendedBootSignature`, the last four bytes of each extended boot
/// sector.
pub const EXTENDED_BOOT_SIGNATURE: u32 = 0xAA55_0000;
/// Sectors in each boot region: the boot sector, eight extended boot
/// sectors, the OEM parameters, a reserved sector and the checksum sector.
pub const BOOT_REGION_SECTORS: u64 = 12;
/// `FileSystemRevision` 1.00.
pub const REVISION: u16 = 0x0100;
/// The byte the unused boot code is filled with: `hlt`.
pub const BOOT_CODE_FILL: u8 = 0xF4;

/// The boot region checksum `sum` carried over `bytes` of sector
/// `sector`: in the boot sector, `VolumeFlags` (bytes 106 and 107) and
/// `PercentInUse` (byte 112) are skipped.
pub open spec fn spec_boot_checksum(sum: u32, sector: u64, bytes: Seq<u8>) -> u32
    decreases bytes.len(),
{
    if bytes.len() == 0 {
        sum
    } else {
        let before = spec_boot_checksum(sum, sector, bytes.drop_last());
        let at = bytes.len() - 1;
        if sector == 0 && (at == 106 || at == 107 || at == 112) {
            before
        } else {
            table_step(before, bytes.last())
        }
    }
}

/// Carries the boot region checksum `sum` over `bytes` of sector `sector`,
/// which start at the sector's first byte.
pub fn boot_checksum(sum: u32, sector: u64, bytes: &[u8]) -> (r: u32)
    ensures
        r == spec_boot_checksum(sum, sector, bytes@),
{
    let mut r = sum;
    let mut i: usize = 0;
    while i < bytes.len()
        invariant
            i <= bytes@.len(),
            r == spec_boot_checksum(sum, sector, bytes@.take(i as int)),
        decreases bytes@.len() - i,
    {
        assert(bytes@.take(i + 1).drop_last() =~= bytes@.take(i as int));
        if !(sector == 0 && (i == 106 || i == 107 || i == 112)) {
            let rotated = (r >> 1u32) | ((r & 1) << 31u32);
            assert(rotated == r / 2 + (r % 2) * 0x8000_0000) by (bit_vector)
                requires
                    rotated == (r >> 1u32) | ((r & 1) << 31u32),
            ;
            r = rotated.wrapping_add(bytes[i] as u32);
        }
        i += 1;
    }
    assert(bytes@.take(i as int) =~= bytes@);
    r
}

/// Byte `at` of a boot region whose boot sector is `boot` and whose
/// sectors are `sector` bytes: the boot sector and zeros after it, eight
/// extended boot sectors of zeros ending in their signature, then the OEM
/// parameters and the reserved sector, zero.
pub open spec fn region_byte(boot: Seq<u8>, sector: int, at: int) -> u8 {
    let index = at / sector;
    let within = at % sector;
    if at < 512 {
        boot[at]
    } else if 1 <= index <= 8 && within >= sector - 4 {
        if within == sector - 2 {
            0x55
        } else if within == sector - 1 {
            0xAA
        } else {
            0
        }
    } else {
        0
    }
}

/// The first eleven sectors of a boot region: what its checksum covers.
pub open spec fn region_image(boot: Seq<u8>, sector: int) -> Seq<u8> {
    Seq::new((11 * sector) as nat, |at: int| region_byte(boot, sector, at))
}

/// The checksum of a boot region whose boot sector is `boot` and whose
/// sectors are `sector` bytes, as its checksum sector repeats it.
pub fn region_checksum(boot: &[u8; 512], sector: u64) -> (sum: u32)
    requires
        512 <= sector <= 4096,
    ensures
        sum == spec_boot_checksum(0, 0, region_image(boot@, sector as int)),
{
    let total = 11 * sector;
    let ghost image = region_image(boot@, sector as int);
    let mut sum: u32 = 0;
    let mut at: u64 = 0;
    while at < total
        invariant
            512 <= sector <= 4096,
            total == 11 * sector,
            image == region_image(boot@, sector as int),
            at <= total,
            sum == spec_boot_checksum(0, 0, image.take(at as int)),
        decreases total - at,
    {
        let index = at / sector;
        let within = at % sector;
        let byte: u8 = if at < 512 {
            boot[at as usize]
        } else if 1 <= index && index <= 8 && within >= sector - 4 {
            if within == sector - 2 {
                0x55
            } else if within == sector - 1 {
                0xAA
            } else {
                0
            }
        } else {
            0
        };
        assert(byte == image[at as int]);
        assert(image.take(at + 1).drop_last() =~= image.take(at as int));
        if !(at == 106 || at == 107 || at == 112) {
            let rotated = (sum >> 1u32) | ((sum & 1) << 31u32);
            assert(rotated == sum / 2 + (sum % 2) * 0x8000_0000) by (bit_vector)
                requires
                    rotated == (sum >> 1u32) | ((sum & 1) << 31u32),
            ;
            sum = rotated.wrapping_add(byte as u32);
        }
        at += 1;
    }
    assert(image.take(total as int) =~= image);
    sum
}

/// The share of the heap, in percent, that the empty volume uses.
pub open spec fn percent_in_use(l: Layout) -> u8 {
    ((l.bitmap_clusters * l.fats + l.upcase_clusters + 1) * 100 / l.cluster_count as int) as u8
}

/// The root directory's first cluster.
pub open spec fn root_cluster(l: Layout) -> u32 {
    (FIRST_CLUSTER + l.bitmap_clusters * l.fats + l.upcase_clusters) as u32
}

/// Whether `s` is the boot sector of the volume `l` at `partition_offset`
/// sectors into its media with serial `serial`: every field set as the
/// specification asks, `MustBeZero`, `VolumeFlags` and `Reserved` zero,
/// the boot code all `hlt`.
pub open spec fn boot_image(s: Seq<u8>, l: Layout, partition_offset: u64, serial: u32) -> bool {
    &&& s.len() == 512
    &&& s.take(3) == JUMP_BOOT@
    &&& s.subrange(3, 11) == FILE_SYSTEM_NAME@
    &&& forall|i: int| 11 <= i < 64 ==> s[i] == 0
    &&& get64(s, 64) == partition_offset
    &&& get64(s, 72) == l.volume_sectors
    &&& get32(s, 80) == l.fat_offset
    &&& get32(s, 84) == l.fat_length
    &&& get32(s, 88) == l.heap_offset
    &&& get32(s, 92) == l.cluster_count
    &&& get32(s, 96) == root_cluster(l)
    &&& get32(s, 100) == serial
    &&& get16(s, 104) == REVISION
    &&& get16(s, 106) == 0
    &&& s[108] == l.sector_shift
    &&& s[109] == l.cluster_shift - l.sector_shift
    &&& s[110] == l.fats
    &&& s[111] == 0x80
    &&& s[112] == percent_in_use(l)
    &&& forall|i: int| 113 <= i < 120 ==> s[i] == 0
    &&& forall|i: int| 120 <= i < 510 ==> s[i] == BOOT_CODE_FILL
    &&& get16(s, 510) == BOOT_SIGNATURE
}

/// The boot sector of the volume `layout`, `partition_offset` sectors into
/// its media, with serial `serial`.
pub fn boot_sector(layout: &Layout, partition_offset: u64, serial: u32) -> (out: [u8; 512])
    requires
        layout.wf(),
    ensures
        boot_image(out@, *layout, partition_offset, serial),
{
    let root = layout.root();
    let used = layout.used();
    assert(used <= layout.cluster_count);
    let share = used as u64 * 100 / layout.cluster_count as u64;
    assert(share <= 100) by (nonlinear_arith)
        requires
            used <= layout.cluster_count,
            layout.cluster_count >= 2,
            share == used * 100 / (layout.cluster_count as int),
    ;
    let percent = share as u8;
    let mut out = [0u8; 512];
    let mut i: usize = 120;
    while i < 510
        invariant
            120 <= i <= 510,
            out@.len() == 512,
            forall|j: int| 0 <= j < 120 ==> out@[j] == 0,
            forall|j: int| 120 <= j < i ==> out@[j] == BOOT_CODE_FILL,
        decreases 510 - i,
    {
        out[i] = BOOT_CODE_FILL;
        i += 1;
    }
    out[0] = 0xEB;
    out[1] = 0x76;
    out[2] = 0x90;
    out[3] = 0x45;
    out[4] = 0x58;
    out[5] = 0x46;
    out[6] = 0x41;
    out[7] = 0x54;
    out[8] = 0x20;
    out[9] = 0x20;
    out[10] = 0x20;
    out[108] = layout.sector_shift;
    out[109] = layout.cluster_shift - layout.sector_shift;
    out[110] = layout.fats;
    out[111] = 0x80;
    out[112] = percent;
    let ghost head = out@;
    write64(&mut out, 64, partition_offset);
    write64(&mut out, 72, layout.volume_sectors);
    write32(&mut out, 80, layout.fat_offset);
    write32(&mut out, 84, layout.fat_length);
    write32(&mut out, 88, layout.heap_offset);
    write32(&mut out, 92, layout.cluster_count);
    write32(&mut out, 96, root);
    write32(&mut out, 100, serial);
    write16(&mut out, 104, REVISION);
    write16(&mut out, 510, BOOT_SIGNATURE);
    let ghost lo = out@[106];
    let ghost hi = out@[107];
    assert(lo == 0 && hi == 0);
    assert((lo as u16 | ((hi as u16) << 8u16)) as u16 == 0) by (bit_vector)
        requires
            lo == 0,
            hi == 0,
    ;
    assert(out@.take(3) =~= JUMP_BOOT@);
    assert(out@.subrange(3, 11) =~= FILE_SYSTEM_NAME@);
    out
}

} // verus!
