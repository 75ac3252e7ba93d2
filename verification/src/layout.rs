//! Volume layout for formatting: FAT variant, cluster size and FAT size
//! from the volume size.

use vstd::prelude::*;
use crate::boot::{ceil_div, valid_cluster_sectors, valid_sector_size};
use crate::kind::{FatKind, FAT12_MAX_CLUSTERS, FAT16_MAX_CLUSTERS, FAT32_MAX_CLUSTERS};

verus! {

/// One mebibyte.
pub const MIB: u64 = 1024 * 1024;
/// The largest cluster, in bytes.
pub const MAX_CLUSTER_BYTES: u32 = 32 * 1024;
/// The largest cluster, in sectors.
pub const MAX_CLUSTER_SECTORS: u32 = 128;
/// Largest volume formatted as FAT12 when the variant is not given.
pub const AUTO_FAT12_BELOW: u64 = 16 * 1024 * 1024;
/// Smallest volume formatted as FAT32 when the variant is not given.
pub const AUTO_FAT32_FROM: u64 = 512 * 1024 * 1024;

/// Why no layout fits.
#[derive(Debug, Clone, Copy, PartialEq, Eq)]
pub enum LayoutError {
    /// The volume is too small for the variant.
    TooSmall,
    /// The volume is too large for the variant.
    TooLarge,
    /// An option is out of range; the text names it.
    Invalid(&'static str),
}

/// What the caller asks for. `None` fields are chosen by [`plan`].
#[derive(Debug, Clone, Copy)]
pub struct Request {
    /// The variant, or `None` to choose it from the size.
    pub kind: Option<FatKind>,
    /// Bytes per sector.
    pub sector_size: u32,
    /// Sectors in the volume.
    pub total_sectors: u64,
    /// Bytes per cluster, or `None` to choose it.
    pub cluster_size: Option<u32>,
    /// Reserved sectors, or `None` for the variant's default.
    pub reserved_sectors: Option<u16>,
    /// FAT copies.
    pub fat_count: u8,
    /// Entries of the FAT12/16 root directory.
    pub root_entries: u16,
}

/// A volume layout in sectors.
#[derive(Debug, Clone, Copy, PartialEq, Eq, Structural)]
pub struct Layout {
    /// The variant.
    pub kind: FatKind,
    /// Bytes per sector.
    pub sector_size: u32,
    /// Sectors per cluster.
    pub cluster_sectors: u32,
    /// Sectors before the first FAT.
    pub reserved_sectors: u16,
    /// FAT copies.
    pub fat_count: u8,
    /// Entries of the fixed root directory; 0 on FAT32.
    pub root_entries: u16,
    /// Sectors in the volume.
    pub total_sectors: u32,
    /// Sectors per FAT.
    pub fat_sectors: u32,
    /// Clusters in the data region.
    pub clusters: u32,
}

impl Layout {
    /// Sectors of the fixed root directory.
    pub open spec fn spec_root_sectors(&self) -> int {
        ceil_div(self.root_entries as int * 32, self.sector_size as int)
    }

    /// Byte offset of the first FAT.
    pub open spec fn spec_fat_start(&self) -> int {
        self.reserved_sectors as int * self.sector_size as int
    }

    /// Byte offset of the fixed root directory, or of the data region on
    /// FAT32.
    pub open spec fn spec_root_start(&self) -> int {
        self.spec_fat_start() + self.fat_count as int * self.fat_sectors as int * self.sector_size as int
    }

    /// Byte offset of the data region.
    pub open spec fn spec_data_start(&self) -> int {
        self.spec_root_start() + self.spec_root_sectors() * self.sector_size as int
    }

    /// Whether the sizes are in the ranges [`plan`] gives them.
    pub open spec fn bounded(&self) -> bool {
        &&& 1 <= self.sector_size <= 4096
        &&& 1 <= self.cluster_sectors <= 128
    }

    /// Sectors of the fixed root directory.
    pub fn root_sectors(&self) -> (n: u32)
        requires
            self.sector_size > 0,
        ensures
            n == self.spec_root_sectors(),
    {
        let bytes = self.root_entries as u32 * 32;
        let q = bytes / self.sector_size;
        let n = if bytes % self.sector_size > 0 {
            q + 1
        } else {
            q
        };
        assert((bytes as int + self.sector_size - 1) / (self.sector_size as int) == if bytes % self.sector_size > 0 {
            q + 1
        } else {
            q as int
        }) by (nonlinear_arith)
            requires
                self.sector_size > 0,
                q == bytes / self.sector_size,
        ;
        n
    }

    /// Byte offset of the first FAT.
    pub fn fat_start(&self) -> (n: u64)
        ensures
            n == self.spec_fat_start(),
    {
        assert(self.reserved_sectors as u64 * self.sector_size as u64 <= 65535 * 0xFFFF_FFFF) by (nonlinear_arith)
            requires
                self.reserved_sectors <= 65535,
                self.sector_size <= 0xFFFF_FFFF,
        ;
        self.reserved_sectors as u64 * self.sector_size as u64
    }

    /// Byte offset of the fixed root directory, or of the data region on
    /// FAT32.
    pub fn root_start(&self) -> (n: u64)
        requires
            self.spec_root_start() <= u64::MAX,
        ensures
            n == self.spec_root_start(),
    {
        let start = self.fat_start();
        assert(self.fat_count as u64 * self.fat_sectors as u64 <= 255 * 0xFFFF_FFFF) by (nonlinear_arith);
        let copies = self.fat_count as u64 * self.fat_sectors as u64;
        assert(0 <= start as int && 0 <= copies * self.sector_size) by (nonlinear_arith);
        assert(copies * self.sector_size == self.fat_count as int * self.fat_sectors as int * self.sector_size as int) by (nonlinear_arith)
            requires
                copies == self.fat_count as int * self.fat_sectors as int,
        ;
        start + copies * self.sector_size as u64
    }

    /// Byte offset of the data region.
    pub fn data_start(&self) -> (n: u64)
        requires
            self.sector_size > 0,
            self.spec_data_start() <= u64::MAX,
        ensures
            n == self.spec_data_start(),
    {
        let root = self.root_sectors();
        assert(0 <= root * self.sector_size) by (nonlinear_arith);
        self.root_start() + root as u64 * self.sector_size as u64
    }

    /// Bytes per cluster.
    pub fn cluster_size(&self) -> (n: u32)
        requires
            self.cluster_sectors * self.sector_size <= u32::MAX,
        ensures
            n == self.cluster_sectors * self.sector_size,
    {
        self.cluster_sectors * self.sector_size
    }
}

/// The offsets of a layout with the sizes [`plan`] gives fit their types.
pub proof fn lemma_bounded_offsets(l: Layout)
    requires
        l.bounded(),
    ensures
        l.sector_size > 0,
        l.spec_data_start() <= u64::MAX,
        l.cluster_sectors * l.sector_size <= u32::MAX,
{
    let ss = l.sector_size as int;
    let bytes = l.root_entries as int * 32;
    assert(l.spec_root_sectors() <= bytes + 1) by (nonlinear_arith)
        requires
            l.spec_root_sectors() == (bytes + ss - 1) / ss,
            1 <= ss,
            0 <= bytes,
    {
        assert((bytes + ss - 1) / ss <= (bytes + ss - 1));
    }
    assert(l.spec_data_start() <= 65535 * 4096 + 255 * 0xFFFF_FFFF * 4096 + (65535 * 32 + 1) * 4096) by (nonlinear_arith)
        requires
            l.spec_data_start() == l.reserved_sectors as int * ss + l.fat_count as int * l.fat_sectors as int * ss + l.spec_root_sectors() * ss,
            1 <= ss <= 4096,
            l.reserved_sectors <= 65535,
            l.fat_count <= 255,
            l.fat_sectors <= 0xFFFF_FFFF,
            0 <= l.spec_root_sectors() <= 65535 * 32 + 1,
    ;
    assert(l.cluster_sectors * l.sector_size <= 128 * 4096) by (nonlinear_arith)
        requires
            l.cluster_sectors <= 128,
            l.sector_size <= 4096,
    ;
}

/// The inclusive range of cluster counts of `kind`.
pub open spec fn spec_cluster_range(kind: FatKind) -> (u32, u32) {
    match kind {
        FatKind::Fat12 => (1, FAT12_MAX_CLUSTERS),
        FatKind::Fat16 => ((FAT12_MAX_CLUSTERS + 1) as u32, FAT16_MAX_CLUSTERS),
        FatKind::Fat32 => ((FAT16_MAX_CLUSTERS + 1) as u32, FAT32_MAX_CLUSTERS),
    }
}

/// The inclusive range of cluster counts of `kind`.
pub fn cluster_range(kind: FatKind) -> (r: (u32, u32))
    ensures
        r == spec_cluster_range(kind),
{
    match kind {
        FatKind::Fat12 => (1, FAT12_MAX_CLUSTERS),
        FatKind::Fat16 => (FAT12_MAX_CLUSTERS + 1, FAT16_MAX_CLUSTERS),
        FatKind::Fat32 => (FAT16_MAX_CLUSTERS + 1, FAT32_MAX_CLUSTERS),
    }
}

/// Sectors per cluster for a volume of `mib` whole mebibytes with 512-byte
/// sectors, after the Microsoft defaults.
pub open spec fn spec_default_cluster_sectors(kind: FatKind, mib: int) -> u32 {
    match kind {
        FatKind::Fat12 => if mib <= 2 {
            1
        } else if mib <= 4 {
            2
        } else if mib <= 8 {
            4
        } else if mib <= 16 {
            8
        } else {
            16u32
        },
        FatKind::Fat16 => if mib <= 8 {
            1
        } else if mib <= 16 {
            2
        } else if mib <= 32 {
            4
        } else if mib <= 64 {
            8
        } else if mib <= 128 {
            16
        } else if mib <= 256 {
            32
        } else if mib <= 512 {
            64
        } else {
            128u32
        },
        FatKind::Fat32 => if mib <= 64 {
            1
        } else if mib <= 128 {
            2
        } else if mib <= 256 {
            4
        } else if mib <= 9 * 1024 - 1 {
            8
        } else if mib <= 17 * 1024 - 1 {
            16
        } else if mib <= 33 * 1024 - 1 {
            32
        } else {
            64u32
        },
    }
}

/// Sectors per cluster for a volume of `bytes` with 512-byte sectors, after
/// the Microsoft defaults.
pub fn default_cluster_sectors(kind: FatKind, bytes: u64) -> (n: u32)
    ensures
        n == spec_default_cluster_sectors(kind, bytes as int / MIB as int),
{
    let mib = bytes / MIB;
    match kind {
        FatKind::Fat12 => if mib <= 2 {
            1
        } else if mib <= 4 {
            2
        } else if mib <= 8 {
            4
        } else if mib <= 16 {
            8
        } else {
            16
        },
        FatKind::Fat16 => if mib <= 8 {
            1
        } else if mib <= 16 {
            2
        } else if mib <= 32 {
            4
        } else if mib <= 64 {
            8
        } else if mib <= 128 {
            16
        } else if mib <= 256 {
            32
        } else if mib <= 512 {
            64
        } else {
            128
        },
        FatKind::Fat32 => if mib <= 64 {
            1
        } else if mib <= 128 {
            2
        } else if mib <= 256 {
            4
        } else if mib <= 9 * 1024 - 1 {
            8
        } else if mib <= 17 * 1024 - 1 {
            16
        } else if mib <= 33 * 1024 - 1 {
            32
        } else {
            64
        },
    }
}


/// Clusters in the data region when `fat` sectors per FAT, `count` times,
/// are taken from `available` sectors.
pub open spec fn clusters_beside(available: int, cluster_sectors: int, count: int, fat: int) -> int {
    let data = if available - count * fat > 0 {
        available - count * fat
    } else {
        0
    };
    data / cluster_sectors
}

/// Bytes a FAT of `kind` takes for `clusters` clusters and the two
/// reserved entries.
pub open spec fn fat_bytes(kind: FatKind, clusters: int) -> int {
    let entries = clusters + 2;
    match kind {
        FatKind::Fat12 => ceil_div(entries * 3, 2),
        FatKind::Fat16 => entries * 2,
        FatKind::Fat32 => entries * 4,
    }
}

/// Sectors per FAT needed for the clusters left beside FATs of `fat`
/// sectors.
pub open spec fn fat_needed(
    kind: FatKind,
    available: int,
    cluster_sectors: int,
    count: int,
    sector_size: int,
    fat: int,
) -> int {
    ceil_div(fat_bytes(kind, clusters_beside(available, cluster_sectors, count, fat)), sector_size)
}

/// Whether FATs of `fat` sectors, `count` of them, cover every cluster
/// left beside them in `available` sectors.
pub open spec fn covers(
    kind: FatKind,
    available: int,
    cluster_sectors: int,
    count: int,
    sector_size: int,
    fat: int,
) -> bool {
    fat >= 1 && fat_needed(kind, available, cluster_sectors, count, sector_size, fat) <= fat
}

/// Whether `fat` is the smallest FAT size that covers the clusters beside
/// it.
pub open spec fn is_smallest_fat(
    kind: FatKind,
    available: int,
    cluster_sectors: int,
    count: int,
    sector_size: int,
    fat: int,
) -> bool {
    &&& covers(kind, available, cluster_sectors, count, sector_size, fat)
    &&& forall|g: int|
        1 <= g < fat ==> !#[trigger] covers(kind, available, cluster_sectors, count, sector_size, g)
}

/// The smallest FAT size that covers every cluster left beside it.
pub open spec fn smallest_fat(
    kind: FatKind,
    available: int,
    cluster_sectors: int,
    count: int,
    sector_size: int,
) -> int {
    choose|fat: int| is_smallest_fat(kind, available, cluster_sectors, count, sector_size, fat)
}

/// What [`fat_sectors`] finds: the smallest FAT that covers every cluster
/// left beside it, and that cluster count; `None` when that FAT is larger
/// than one sector and those FATs do not fit in the available sectors.
/// One-sector FATs are taken without that test, with no clusters beside
/// them when they fill the available sectors.
pub open spec fn spec_fat_sectors(
    kind: FatKind,
    available: int,
    cluster_sectors: int,
    count: int,
    sector_size: int,
) -> Option<(u32, u32)> {
    let fat = smallest_fat(kind, available, cluster_sectors, count, sector_size);
    if fat > u32::MAX || (fat > 1 && fat * count > available) {
        None
    } else {
        Some((fat as u32, clusters_beside(available, cluster_sectors, count, fat) as u32))
    }
}

/// Larger FATs leave fewer clusters, which need no larger FATs.
pub proof fn lemma_fat_needed_monotonic(
    kind: FatKind,
    available: int,
    cluster_sectors: int,
    count: int,
    sector_size: int,
    small: int,
    large: int,
)
    requires
        cluster_sectors >= 1,
        sector_size >= 1,
        count >= 0,
        small <= large,
    ensures
        clusters_beside(available, cluster_sectors, count, large) <= clusters_beside(
            available,
            cluster_sectors,
            count,
            small,
        ),
        fat_needed(kind, available, cluster_sectors, count, sector_size, large) <= fat_needed(
            kind,
            available,
            cluster_sectors,
            count,
            sector_size,
            small,
        ),
{
    let d1 = if available - count * small > 0 {
        available - count * small
    } else {
        0
    };
    let d2 = if available - count * large > 0 {
        available - count * large
    } else {
        0
    };
    assert(count * small <= count * large) by (nonlinear_arith)
        requires
            count >= 0,
            small <= large,
    ;
    assert(d2 <= d1);
    vstd::arithmetic::div_mod::lemma_div_is_ordered(d2, d1, cluster_sectors);
    let c1 = clusters_beside(available, cluster_sectors, count, small);
    let c2 = clusters_beside(available, cluster_sectors, count, large);
    assert(fat_bytes(kind, c2) <= fat_bytes(kind, c1)) by {
        if kind == FatKind::Fat12 {
            vstd::arithmetic::div_mod::lemma_div_is_ordered((c2 + 2) * 3 + 1, (c1 + 2) * 3 + 1, 2);
        }
    }
    vstd::arithmetic::div_mod::lemma_div_is_ordered(
        fat_bytes(kind, c2) + sector_size - 1,
        fat_bytes(kind, c1) + sector_size - 1,
        sector_size,
    );
}

/// A larger FAT covers whatever a smaller one covers.
proof fn lemma_covers_up(
    kind: FatKind,
    available: int,
    cluster_sectors: int,
    count: int,
    sector_size: int,
    small: int,
    large: int,
)
    requires
        cluster_sectors >= 1,
        sector_size >= 1,
        count >= 0,
        small <= large,
        covers(kind, available, cluster_sectors, count, sector_size, small),
    ensures
        covers(kind, available, cluster_sectors, count, sector_size, large),
{
    lemma_fat_needed_monotonic(kind, available, cluster_sectors, count, sector_size, small, large);
}

/// Some FAT size covers the clusters beside it, so the smallest one is
/// well defined; it is at most the size one-sector FATs need.
proof fn lemma_smallest_fat(
    kind: FatKind,
    available: int,
    cluster_sectors: int,
    count: int,
    sector_size: int,
)
    requires
        cluster_sectors >= 1,
        sector_size >= 1,
        count >= 0,
    ensures
        is_smallest_fat(
            kind,
            available,
            cluster_sectors,
            count,
            sector_size,
            smallest_fat(kind, available, cluster_sectors, count, sector_size),
        ),
        forall|fat: int|
            is_smallest_fat(kind, available, cluster_sectors, count, sector_size, fat) ==> fat
                == smallest_fat(kind, available, cluster_sectors, count, sector_size),
{
    let first = fat_needed(kind, available, cluster_sectors, count, sector_size, 1);
    let top = if first > 1 {
        first
    } else {
        1
    };
    lemma_fat_needed_monotonic(kind, available, cluster_sectors, count, sector_size, 1, top);
    lemma_find_smallest(kind, available, cluster_sectors, count, sector_size, top);
    let s = smallest_fat(kind, available, cluster_sectors, count, sector_size);
    assert forall|fat: int|
        is_smallest_fat(kind, available, cluster_sectors, count, sector_size, fat) implies fat == s by {
        if fat < s {
            assert(!covers(kind, available, cluster_sectors, count, sector_size, fat));
        }
        if s < fat {
            assert(!covers(kind, available, cluster_sectors, count, sector_size, s));
        }
    }
}

/// Below any FAT size that covers lies a smallest one.
proof fn lemma_find_smallest(
    kind: FatKind,
    available: int,
    cluster_sectors: int,
    count: int,
    sector_size: int,
    fat: int,
)
    requires
        covers(kind, available, cluster_sectors, count, sector_size, fat),
    ensures
        exists|f: int| is_smallest_fat(kind, available, cluster_sectors, count, sector_size, f),
    decreases fat,
{
    if exists|g: int| 1 <= g < fat && covers(kind, available, cluster_sectors, count, sector_size, g) {
        let g = choose|g: int| 1 <= g < fat && covers(kind, available, cluster_sectors, count, sector_size, g);
        lemma_find_smallest(kind, available, cluster_sectors, count, sector_size, g);
    } else {
        assert(is_smallest_fat(kind, available, cluster_sectors, count, sector_size, fat));
    }
}

/// Sectors per FAT that FATs of `fat` sectors leave clusters to need.
fn needed_at(
    kind: FatKind,
    available: u32,
    cluster_sectors: u32,
    fat_count: u32,
    sector_size: u32,
    fat: u64,
) -> (n: u64)
    requires
        cluster_sectors >= 1,
        sector_size >= 1,
    ensures
        n == fat_needed(kind, available as int, cluster_sectors as int, fat_count as int, sector_size as int, fat as int),
        n <= 0x8_0000_0000,
{
    assert(fat_count as u128 * fat as u128 <= 0xFFFF_FFFF * 0xFFFF_FFFF_FFFF_FFFF) by (nonlinear_arith)
        requires
            fat_count <= 0xFFFF_FFFF,
            fat <= 0xFFFF_FFFF_FFFF_FFFF,
    ;
    let used: u128 = fat_count as u128 * fat as u128;
    let data: u32 = if used < available as u128 {
        (available as u128 - used) as u32
    } else {
        0
    };
    let clusters = data / cluster_sectors;
    assert(clusters == clusters_beside(available as int, cluster_sectors as int, fat_count as int, fat as int));
    let entries = clusters as u64 + 2;
    let bytes = match kind {
        FatKind::Fat12 => (entries * 3 + 1) / 2,
        FatKind::Fat16 => entries * 2,
        FatKind::Fat32 => entries * 4,
    };
    assert(bytes == fat_bytes(kind, clusters as int));
    let needed = (bytes + sector_size as u64 - 1) / sector_size as u64;
    assert(needed <= bytes) by (nonlinear_arith)
        requires
            sector_size >= 1,
            needed == (bytes + sector_size - 1) / (sector_size as int),
    ;
    needed
}

/// Sectors per FAT and cluster count when `available` sectors hold the FATs
/// and the data region: the smallest FAT that covers every cluster left
/// beside it, found by halving the range between one sector and the size
/// one-sector FATs need.
pub fn fat_sectors(
    kind: FatKind,
    available: u32,
    cluster_sectors: u32,
    fat_count: u32,
    sector_size: u32,
) -> (r: Option<(u32, u32)>)
    requires
        cluster_sectors >= 1,
        sector_size >= 1,
    ensures
        r == spec_fat_sectors(
            kind,
            available as int,
            cluster_sectors as int,
            fat_count as int,
            sector_size as int,
        ),
        r matches Some((fat, clusters)) ==> {
            &&& is_smallest_fat(
                kind,
                available as int,
                cluster_sectors as int,
                fat_count as int,
                sector_size as int,
                fat as int,
            )
            &&& clusters == clusters_beside(
                available as int,
                cluster_sectors as int,
                fat_count as int,
                fat as int,
            )
            &&& fat > 1 ==> fat * fat_count <= available
        },
{
    let ghost k = kind;
    let ghost av = available as int;
    let ghost cs = cluster_sectors as int;
    let ghost cn = fat_count as int;
    let ghost ss = sector_size as int;
    proof {
        lemma_smallest_fat(k, av, cs, cn, ss);
    }
    let first = needed_at(kind, available, cluster_sectors, fat_count, sector_size, 1);
    let mut hi: u64 = if first > 1 {
        first
    } else {
        1
    };
    proof {
        lemma_fat_needed_monotonic(k, av, cs, cn, ss, 1, hi as int);
    }
    let mut lo: u64 = 0;
    while hi - lo > 1
        invariant
            cluster_sectors >= 1,
            sector_size >= 1,
            k == kind && av == available && cs == cluster_sectors && cn == fat_count && ss == sector_size,
            lo < hi <= 0x8_0000_0000,
            covers(k, av, cs, cn, ss, hi as int),
            forall|g: int| 1 <= g <= lo ==> !#[trigger] covers(k, av, cs, cn, ss, g),
        decreases hi - lo,
    {
        let mid = lo + (hi - lo) / 2;
        let needed = needed_at(kind, available, cluster_sectors, fat_count, sector_size, mid);
        if needed <= mid {
            hi = mid;
        } else {
            assert forall|g: int| 1 <= g <= mid implies !#[trigger] covers(k, av, cs, cn, ss, g) by {
                if covers(k, av, cs, cn, ss, g) {
                    lemma_covers_up(k, av, cs, cn, ss, g, mid as int);
                }
            }
            lo = mid;
        }
    }
    assert(is_smallest_fat(k, av, cs, cn, ss, hi as int));
    if hi > u32::MAX as u64 {
        return None;
    }
    let fat = hi as u32;
    assert(fat as u64 * fat_count as u64 <= 0xFFFF_FFFF * 0xFFFF_FFFF) by (nonlinear_arith)
        requires
            fat <= 0xFFFF_FFFF,
            fat_count <= 0xFFFF_FFFF,
    ;
    let total = fat as u64 * fat_count as u64;
    assert(total == fat * fat_count);
    if fat > 1 && total > available as u64 {
        return None;
    }
    let data = if total > available as u64 {
        0
    } else {
        available - total as u32
    };
    let clusters = data / cluster_sectors;
    assert(clusters == clusters_beside(av, cs, cn, fat as int));
    Some((fat, clusters))
}

/// Whether `n` is a power of two.
pub open spec fn is_pow2(n: int) -> bool
    decreases n,
{
    if n <= 0 {
        false
    } else if n == 1 {
        true
    } else {
        n % 2 == 0 && is_pow2(n / 2)
    }
}

/// Whether `n` is a power of two.
pub fn is_power_of_two(n: u32) -> (b: bool)
    ensures
        b == is_pow2(n as int),
{
    let mut m = n;
    while m > 1 && m % 2 == 0
        invariant
            is_pow2(m as int) == is_pow2(n as int),
        decreases m,
    {
        m = m / 2;
    }
    m == 1
}

/// The variant chosen for a volume of `bytes` when none is given: FAT12
/// below 16 MiB, FAT16 below 512 MiB, FAT32 from there.
pub open spec fn auto_kind(bytes: int) -> FatKind {
    if bytes < AUTO_FAT12_BELOW {
        FatKind::Fat12
    } else if bytes < AUTO_FAT32_FROM {
        FatKind::Fat16
    } else {
        FatKind::Fat32
    }
}

/// The largest cluster in sectors of `sector_size` bytes.
pub open spec fn max_cluster_sectors(sector_size: int) -> int {
    if MAX_CLUSTER_SECTORS as int <= MAX_CLUSTER_BYTES as int / sector_size {
        MAX_CLUSTER_SECTORS as int
    } else {
        MAX_CLUSTER_BYTES as int / sector_size
    }
}

/// FATs and clusters with clusters of `sectors`, if the cluster count
/// suits `kind`.
pub open spec fn fits(
    kind: FatKind,
    available: int,
    fat_count: int,
    sector_size: int,
    sectors: int,
) -> Result<(u32, u32), LayoutError> {
    let (min, max) = spec_cluster_range(kind);
    match spec_fat_sectors(kind, available, sectors, fat_count, sector_size) {
        None => Err(LayoutError::TooSmall),
        Some((fat, clusters)) => if clusters < min {
            Err(LayoutError::TooSmall)
        } else if clusters > max {
            Err(LayoutError::TooLarge)
        } else {
            Ok((fat, clusters))
        },
    }
}

/// The cluster size found from `sectors`: doubled while there are too many
/// clusters, halved while there are too few, never turning back.
pub open spec fn search(
    kind: FatKind,
    available: int,
    fat_count: int,
    sector_size: int,
    max: int,
    sectors: int,
    grew: Option<bool>,
) -> Result<(u32, (u32, u32)), LayoutError>
    decreases (if grew is None {
        1int
    } else {
        0int
    }),
        (if grew == Some(true) {
            if max >= sectors {
                max - sectors
            } else {
                0
            }
        } else {
            if sectors >= 0 {
                sectors
            } else {
                0
            }
        }),
    when sectors >= 1
{
    match fits(kind, available, fat_count, sector_size, sectors) {
        Ok(found) => Ok((sectors as u32, found)),
        Err(LayoutError::TooLarge) => if sectors < max && grew != Some(false) {
            proof {
                assert(grew is None || grew == Some(true));
                assert(grew == Some(true) ==> (if max >= sectors * 2 {
                    max - sectors * 2
                } else {
                    0
                }) < max - sectors);
            }
            search(kind, available, fat_count, sector_size, max, sectors * 2, Some(true))
        } else {
            Err(LayoutError::TooLarge)
        },
        Err(LayoutError::TooSmall) => if sectors > 1 && grew != Some(true) {
            search(kind, available, fat_count, sector_size, max, sectors / 2, Some(false))
        } else {
            Err(LayoutError::TooSmall)
        },
        Err(e) => Err(e),
    }
}

/// The reserved sectors of a volume of `kind` when `asked` are asked for:
/// at least 1, and at least 8 on FAT32; 1, or 32 on FAT32, by default.
pub open spec fn spec_reserved(kind: FatKind, asked: Option<u16>) -> Result<u16, LayoutError> {
    match (kind, asked) {
        (FatKind::Fat32, Some(n)) => if n < 8 {
            Err(LayoutError::Invalid("reserved sectors"))
        } else {
            Ok(n)
        },
        (_, Some(n)) => if n == 0 {
            Err(LayoutError::Invalid("reserved sectors"))
        } else {
            Ok(n)
        },
        (FatKind::Fat32, None) => Ok(32),
        (_, None) => Ok(1),
    }
}

/// The root directory entries of a volume of `kind` when `asked` are
/// asked for: none on FAT32, else rounded up to fill whole sectors.
pub open spec fn spec_root_entries(kind: FatKind, asked: u16, sector_size: int) -> Result<
    u16,
    LayoutError,
> {
    let per_sector = sector_size / 32;
    let entries = ceil_div(asked as int, per_sector) * per_sector;
    if kind == FatKind::Fat32 {
        Ok(0)
    } else if asked == 0 {
        Err(LayoutError::Invalid("root entries"))
    } else if entries > u16::MAX {
        Err(LayoutError::Invalid("root entries"))
    } else {
        Ok(entries as u16)
    }
}

/// Sectors per cluster and the FATs and clusters they give: the asked
/// cluster size, checked, or one found from the default for the size.
pub open spec fn spec_chosen(
    kind: FatKind,
    available: int,
    fat_count: int,
    sector_size: u32,
    bytes: int,
    asked: Option<u32>,
) -> Result<(u32, (u32, u32)), LayoutError> {
    let ss = sector_size as int;
    let max = max_cluster_sectors(ss);
    match asked {
        Some(size) => if !is_pow2(size as int) || size % sector_size != 0 || size / sector_size > max {
            Err(LayoutError::Invalid("cluster size"))
        } else {
            match fits(kind, available, fat_count, ss, (size / sector_size) as int) {
                Ok(found) => Ok(((size / sector_size) as u32, found)),
                Err(e) => Err(e),
            }
        },
        None => {
            let target = spec_default_cluster_sectors(kind, bytes / MIB as int) * 512 / ss;
            let start = if target < 1 {
                1
            } else if target > max {
                max
            } else {
                target
            };
            search(kind, available, fat_count, ss, max, start, None)
        },
    }
}

/// The layout [`plan`] gives for `r`, or why there is none.
pub open spec fn spec_plan(r: Request) -> Result<Layout, LayoutError> {
    let ss = r.sector_size as int;
    if !valid_sector_size(ss) {
        Err(LayoutError::Invalid("sector size"))
    } else if r.fat_count != 1 && r.fat_count != 2 {
        Err(LayoutError::Invalid("FAT count"))
    } else if r.total_sectors > u32::MAX {
        Err(LayoutError::TooLarge)
    } else {
        let total = r.total_sectors as int;
        let bytes = total * ss;
        let kind = match r.kind {
            Some(k) => k,
            None => auto_kind(bytes),
        };
        match (spec_reserved(kind, r.reserved_sectors), spec_root_entries(kind, r.root_entries, ss)) {
            (Err(e), _) => Err(e),
            (_, Err(e)) => Err(e),
            (Ok(reserved), Ok(root_entries)) => {
                let root_sectors = ceil_div(root_entries as int * 32, ss);
                let available = total - (reserved + root_sectors);
                if available <= 0 {
                    Err(LayoutError::TooSmall)
                } else {
                    match spec_chosen(kind, available, r.fat_count as int, r.sector_size, bytes, r.cluster_size) {
                        Err(e) => Err(e),
                        Ok((cluster_sectors, (fat_sectors, clusters))) => Ok(
                            Layout {
                                kind,
                                sector_size: r.sector_size,
                                cluster_sectors,
                                reserved_sectors: reserved,
                                fat_count: r.fat_count,
                                root_entries,
                                total_sectors: total as u32,
                                fat_sectors,
                                clusters,
                            },
                        ),
                    }
                }
            },
        }
    }
}

/// FATs and clusters with clusters of `sectors`, if the cluster count
/// suits `kind`.
pub fn check_fit(
    kind: FatKind,
    available: u32,
    fat_count: u8,
    sector_size: u32,
    sectors: u32,
) -> (r: Result<(u32, u32), LayoutError>)
    requires
        sectors >= 1,
        sector_size >= 1,
    ensures
        r == fits(kind, available as int, fat_count as int, sector_size as int, sectors as int),
{
    let (min, max) = cluster_range(kind);
    match fat_sectors(kind, available, sectors, fat_count as u32, sector_size) {
        None => Err(LayoutError::TooSmall),
        Some((fat, clusters)) => if clusters < min {
            Err(LayoutError::TooSmall)
        } else if clusters > max {
            Err(LayoutError::TooLarge)
        } else {
            Ok((fat, clusters))
        },
    }
}

/// The reserved sectors of a volume of `kind` when `asked` are asked for.
pub fn reserved_for(kind: FatKind, asked: Option<u16>) -> (r: Result<u16, LayoutError>)
    ensures
        r == spec_reserved(kind, asked),
{
    match (kind, asked) {
        (FatKind::Fat32, Some(reserved)) => if reserved < 8 {
            Err(LayoutError::Invalid("reserved sectors"))
        } else {
            Ok(reserved)
        },
        (_, Some(reserved)) => if reserved == 0 {
            Err(LayoutError::Invalid("reserved sectors"))
        } else {
            Ok(reserved)
        },
        (FatKind::Fat32, None) => Ok(32),
        (_, None) => Ok(1),
    }
}

/// The root directory entries of a volume of `kind` when `asked` are
/// asked for.
pub fn root_entries_for(kind: FatKind, asked: u16, sector_size: u32) -> (r: Result<u16, LayoutError>)
    requires
        valid_sector_size(sector_size as int),
    ensures
        r == spec_root_entries(kind, asked, sector_size as int),
{
    match kind {
        FatKind::Fat32 => Ok(0),
        _ => {
            if asked == 0 {
                return Err(LayoutError::Invalid("root entries"));
            }
            let per_sector = sector_size / 32;
            assert((asked as int + per_sector - 1) / (per_sector as int) * per_sector <= 65535 + 128) by (nonlinear_arith)
                requires
                    1 <= per_sector <= 128,
                    asked <= 65535,
            {
                let q = (asked as int + per_sector - 1) / (per_sector as int);
                assert(q * per_sector <= asked as int + per_sector - 1);
            }
            let entries = (asked as u32 + per_sector - 1) / per_sector * per_sector;
            if entries > u16::MAX as u32 {
                return Err(LayoutError::Invalid("root entries"));
            }
            Ok(entries as u16)
        },
    }
}

/// Sectors per cluster and the FATs and clusters they give.
pub fn choose_cluster(
    kind: FatKind,
    available: u32,
    fat_count: u8,
    sector_size: u32,
    bytes: u64,
    asked: Option<u32>,
) -> (r: Result<(u32, (u32, u32)), LayoutError>)
    requires
        valid_sector_size(sector_size as int),
    ensures
        r == spec_chosen(kind, available as int, fat_count as int, sector_size, bytes as int, asked),
{
    let max_sectors = if MAX_CLUSTER_SECTORS <= MAX_CLUSTER_BYTES / sector_size {
        MAX_CLUSTER_SECTORS
    } else {
        MAX_CLUSTER_BYTES / sector_size
    };
    let ghost ss = sector_size as int;
    let ghost max = max_cluster_sectors(ss);
    assert(max_sectors == max);
    assert(8 <= MAX_CLUSTER_BYTES / sector_size) by (nonlinear_arith)
        requires
            1 <= sector_size <= 4096,
            MAX_CLUSTER_BYTES == 32768,
    ;
    assert(8 <= max_sectors <= 128);
    match asked {
        Some(size) => {
            if !is_power_of_two(size) || size % sector_size != 0 || size / sector_size > max_sectors {
                return Err(LayoutError::Invalid("cluster size"));
            }
            assert(size / sector_size >= 1) by {
                assert(size >= 1);
                vstd::arithmetic::div_mod::lemma_fundamental_div_mod(size as int, sector_size as int);
            }
            let sectors = size / sector_size;
            match check_fit(kind, available, fat_count, sector_size, sectors) {
                Ok(found) => Ok((sectors, found)),
                Err(e) => Err(e),
            }
        },
        None => {
            let target = default_cluster_sectors(kind, bytes) * 512;
            let t = target / sector_size;
            let start = if t < 1 {
                1
            } else if t > max_sectors {
                max_sectors
            } else {
                t
            };
            let ghost goal = search(kind, available as int, fat_count as int, ss, max, start as int, None);
            assert(goal == spec_chosen(kind, available as int, fat_count as int, sector_size, bytes as int, asked));
            let mut sectors = start;
            let mut grew: Option<bool> = None;
            let mut chosen: (u32, (u32, u32)) = (0, (0, 0));
            loop
                invariant
                    1 <= sectors,
                    1 <= sector_size <= 4096,
                    max == max_sectors,
                    max_sectors <= 128,
                    goal == search(kind, available as int, fat_count as int, ss, max, start as int, None),
                    goal == spec_chosen(kind, available as int, fat_count as int, sector_size, bytes as int, asked),
                    ss == sector_size,
                    search(kind, available as int, fat_count as int, ss, max, sectors as int, grew) == goal,
                ensures
                    goal == Ok::<(u32, (u32, u32)), LayoutError>(chosen),
                decreases (if grew is None {
                    1int
                } else {
                    0int
                }),
                    (if grew == Some(true) {
                        if max >= sectors {
                            max - sectors
                        } else {
                            0
                        }
                    } else {
                        sectors as int
                    }),
            {
                let fit = check_fit(kind, available, fat_count, sector_size, sectors);
                match fit {
                    Ok(found) => {
                        chosen = (sectors, found);
                        break;
                    },
                    Err(LayoutError::TooLarge) => {
                        let turned = match grew {
                            Some(false) => true,
                            _ => false,
                        };
                        if sectors < max_sectors && !turned {
                            grew = Some(true);
                            sectors = sectors * 2;
                        } else {
                            return Err(LayoutError::TooLarge);
                        }
                    },
                    Err(LayoutError::TooSmall) => {
                        let turned = match grew {
                            Some(true) => true,
                            _ => false,
                        };
                        if sectors > 1 && !turned {
                            grew = Some(false);
                            sectors = sectors / 2;
                        } else {
                            return Err(LayoutError::TooSmall);
                        }
                    },
                    Err(e) => {
                        return Err(e);
                    },
                }
            }
            Ok(chosen)
        },
    }
}

/// Chooses the variant, when not given, and the cluster size, when not
/// given, so the cluster count fits the variant. A chosen cluster size
/// starts from [`default_cluster_sectors`] and doubles or halves until it
/// fits.
pub fn plan(request: &Request) -> (r: Result<Layout, LayoutError>)
    ensures
        r == spec_plan(*request),
{
    let sector_size = request.sector_size;
    if !(sector_size == 512 || sector_size == 1024 || sector_size == 2048 || sector_size == 4096) {
        return Err(LayoutError::Invalid("sector size"));
    }
    if !(request.fat_count == 1 || request.fat_count == 2) {
        return Err(LayoutError::Invalid("FAT count"));
    }
    if request.total_sectors > u32::MAX as u64 {
        return Err(LayoutError::TooLarge);
    }
    let total_sectors = request.total_sectors as u32;
    assert(total_sectors as u64 * sector_size as u64 <= 0xFFFF_FFFF * 4096) by (nonlinear_arith)
        requires
            sector_size <= 4096,
    ;
    let bytes = total_sectors as u64 * sector_size as u64;
    let kind = match request.kind {
        Some(kind) => kind,
        None => if bytes < AUTO_FAT12_BELOW {
            FatKind::Fat12
        } else if bytes < AUTO_FAT32_FROM {
            FatKind::Fat16
        } else {
            FatKind::Fat32
        },
    };
    let reserved_sectors = match reserved_for(kind, request.reserved_sectors) {
        Ok(n) => n,
        Err(e) => return Err(e),
    };
    let root_entries = match root_entries_for(kind, request.root_entries, sector_size) {
        Ok(n) => n,
        Err(e) => return Err(e),
    };
    let root_sectors = (root_entries as u32 * 32 + sector_size - 1) / sector_size;
    if reserved_sectors as u32 + root_sectors >= total_sectors {
        return Err(LayoutError::TooSmall);
    }
    let available = total_sectors - (reserved_sectors as u32 + root_sectors);
    let (cluster_sectors, found) = match choose_cluster(
        kind,
        available,
        request.fat_count,
        sector_size,
        bytes,
        request.cluster_size,
    ) {
        Ok(c) => c,
        Err(e) => return Err(e),
    };
    let (fat_sectors, clusters) = found;
    Ok(
        Layout {
            kind,
            sector_size,
            cluster_sectors,
            reserved_sectors,
            fat_count: request.fat_count,
            root_entries,
            total_sectors,
            fat_sectors,
            clusters,
        },
    )
}

impl Layout {
    /// Sectors left for the FATs and the data region.
    pub open spec fn spec_available(&self) -> int {
        self.total_sectors - self.reserved_sectors - self.spec_root_sectors()
    }

    /// Whether the layout is one [`plan`] can give: valid sizes, FATs that
    /// cover every cluster beside them, and a cluster count that suits the
    /// variant.
    pub open spec fn wf(&self) -> bool {
        let ss = self.sector_size as int;
        let cs = self.cluster_sectors as int;
        let available = self.spec_available();
        let range = spec_cluster_range(self.kind);
        &&& valid_sector_size(ss)
        &&& valid_cluster_sectors(cs)
        &&& cs * ss <= MAX_CLUSTER_BYTES
        &&& self.fat_count == 1 || self.fat_count == 2
        &&& self.reserved_sectors >= 1
        &&& (self.kind == FatKind::Fat32) == (self.root_entries == 0)
        &&& available > 0
        &&& self.fat_sectors >= 1
        &&& range.0 <= self.clusters <= range.1
        &&& self.clusters == clusters_beside(available, cs, self.fat_count as int, self.fat_sectors as int)
        &&& fat_needed(self.kind, available, cs, self.fat_count as int, ss, self.fat_sectors as int)
            <= self.fat_sectors
        &&& self.kind != FatKind::Fat32 ==> self.fat_sectors <= 0xFFFF
    }
}

/// Halving a power of two of at least 2 gives a power of two.
proof fn lemma_pow2_half(n: int)
    requires
        is_pow2(n),
        n >= 2,
    ensures
        n % 2 == 0,
        is_pow2(n / 2),
{
}

/// A power of two times `q`, itself a power of two, makes `q` one.
proof fn lemma_pow2_factor(q: int, m: int)
    requires
        q >= 1,
        is_pow2(m),
        is_pow2(q * m),
    ensures
        is_pow2(q),
    decreases m,
{
    if m != 1 {
        lemma_pow2_half(m);
        let h = m / 2;
        assert(q * m == 2 * (q * h)) by (nonlinear_arith)
            requires
                m == 2 * h,
        ;
        assert(q * h >= 1) by (nonlinear_arith)
            requires
                q >= 1,
                h >= 1,
        ;
        lemma_pow2_half(q * m);
        assert((q * m) / 2 == q * h);
        lemma_pow2_factor(q, h);
    }
}

/// The powers of two up to 128 are the valid cluster sizes in sectors.
proof fn lemma_pow2_cluster_sectors(q: int)
    requires
        is_pow2(q),
        q <= 128,
    ensures
        valid_cluster_sectors(q),
    decreases q,
{
    if q != 1 {
        lemma_pow2_half(q);
        lemma_pow2_cluster_sectors(q / 2);
    }
}

/// What `fits` finds is the smallest FAT that covers the clusters beside
/// it and a cluster count in the variant's range.
proof fn lemma_fits(kind: FatKind, available: int, fat_count: int, ss: int, sectors: int)
    requires
        sectors >= 1,
        ss >= 1,
        fat_count >= 0,
        0 <= available <= u32::MAX,
    ensures
        fits(kind, available, fat_count, ss, sectors) matches Ok((fat, clusters)) ==> {
            &&& fat >= 1
            &&& spec_cluster_range(kind).0 <= clusters <= spec_cluster_range(kind).1
            &&& clusters == clusters_beside(available, sectors, fat_count, fat as int)
            &&& fat_needed(kind, available, sectors, fat_count, ss, fat as int) <= fat
            &&& is_smallest_fat(kind, available, sectors, fat_count, ss, fat as int)
        },
{
    lemma_smallest_fat(kind, available, sectors, fat_count, ss);
    let f = smallest_fat(kind, available, sectors, fat_count, ss);
    let d = if available - fat_count * f > 0 {
        available - fat_count * f
    } else {
        0
    };
    assert(d <= available) by (nonlinear_arith)
        requires
            fat_count >= 0,
            f >= 1,
            available >= 0,
            d == (if available - fat_count * f > 0 {
                available - fat_count * f
            } else {
                0
            }),
    ;
    vstd::arithmetic::div_mod::lemma_div_is_ordered_by_denominator(d, 1, sectors);
    assert(clusters_beside(available, sectors, fat_count, f) <= available);
}

/// What `search` finds is a valid cluster size no larger than `max`, and
/// `fits` it.
proof fn lemma_search(
    kind: FatKind,
    available: int,
    fat_count: int,
    ss: int,
    max: int,
    sectors: int,
    grew: Option<bool>,
)
    requires
        valid_cluster_sectors(sectors),
        valid_cluster_sectors(max),
        sectors <= max,
    ensures
        search(kind, available, fat_count, ss, max, sectors, grew) matches Ok((s, found)) ==> {
            &&& valid_cluster_sectors(s as int)
            &&& s <= max
            &&& fits(kind, available, fat_count, ss, s as int) == Ok::<(u32, u32), LayoutError>(
                found,
            )
        },
    decreases (if grew is None {
        1int
    } else {
        0int
    }),
        (if grew == Some(true) {
            if max >= sectors {
                max - sectors
            } else {
                0
            }
        } else {
            if sectors >= 0 {
                sectors
            } else {
                0
            }
        }),
{
    match fits(kind, available, fat_count, ss, sectors) {
        Ok(_) => {},
        Err(LayoutError::TooLarge) => if sectors < max && grew != Some(false) {
            assert(grew is None || grew == Some(true));
            assert(grew == Some(true) ==> (if max >= sectors * 2 {
                max - sectors * 2
            } else {
                0
            }) < max - sectors);
            lemma_search(kind, available, fat_count, ss, max, sectors * 2, Some(true));
        },
        Err(LayoutError::TooSmall) => if sectors > 1 && grew != Some(true) {
            lemma_search(kind, available, fat_count, ss, max, sectors / 2, Some(false));
        },
        Err(_) => {},
    }
}

/// The smallest FAT for a FAT12/16 cluster count stays within the 16-bit
/// FAT size field: one sector less would not cover the few more clusters
/// it leaves, so the FAT is not much larger than those clusters need.
proof fn lemma_small_fat(
    kind: FatKind,
    available: int,
    cs: int,
    count: int,
    ss: int,
    fat: int,
    clusters: int,
)
    requires
        kind != FatKind::Fat32,
        ss >= 512,
        cs >= 1,
        1 <= count <= 2,
        fat >= 2,
        !covers(kind, available, cs, count, ss, fat - 1),
        clusters == clusters_beside(available, cs, count, fat),
        0 <= clusters <= FAT16_MAX_CLUSTERS,
    ensures
        fat <= 0xFFFF,
{
    let d = if available - count * fat > 0 {
        available - count * fat
    } else {
        0
    };
    let e = if available - count * (fat - 1) > 0 {
        available - count * (fat - 1)
    } else {
        0
    };
    assert(count * (fat - 1) == count * fat - count) by (nonlinear_arith);
    assert(e <= d + 2);
    let c = clusters_beside(available, cs, count, fat - 1);
    vstd::arithmetic::div_mod::lemma_fundamental_div_mod(d, cs);
    vstd::arithmetic::div_mod::lemma_mod_pos_bound(d, cs);
    vstd::arithmetic::div_mod::lemma_fundamental_div_mod(e, cs);
    vstd::arithmetic::div_mod::lemma_mod_pos_bound(e, cs);
    assert(c <= clusters + 2) by (nonlinear_arith)
        requires
            d == cs * clusters + d % cs,
            0 <= d % cs < cs,
            e == cs * c + e % cs,
            0 <= e % cs < cs,
            e <= d + 2,
            cs >= 1,
    {
        assert(cs * c <= e);
        assert(e < cs * clusters + cs + 2);
        assert(cs * c < cs * (clusters + 1) + 2);
        if c > clusters + 2 {
            assert(cs * c >= cs * (clusters + 3));
            assert(cs * (clusters + 3) == cs * (clusters + 1) + 2 * cs);
        }
    }
    assert(c >= 0) by {
        vstd::arithmetic::div_mod::lemma_div_pos_is_pos(e, cs);
    }
    let b = fat_bytes(kind, c);
    assert(b <= 2 * c + 4);
    let needed = fat_needed(kind, available, cs, count, ss, fat - 1);
    assert(needed >= fat);
    vstd::arithmetic::div_mod::lemma_fundamental_div_mod(b + ss - 1, ss);
    vstd::arithmetic::div_mod::lemma_mod_pos_bound(b + ss - 1, ss);
    assert(fat <= 0xFFFF) by (nonlinear_arith)
        requires
            needed == (b + ss - 1) / ss,
            b + ss - 1 == ss * needed + (b + ss - 1) % ss,
            (b + ss - 1) % ss >= 0,
            needed >= fat,
            b <= 2 * c + 4,
            c <= clusters + 2,
            clusters <= FAT16_MAX_CLUSTERS,
            ss >= 512,
            fat >= 2,
    {
        assert(ss * fat <= ss * needed);
        assert(ss * (fat - 1) <= b);
        assert(512 * (fat - 1) <= ss * (fat - 1));
    }
}

/// What `spec_chosen` finds: a valid cluster size, and FATs and a cluster
/// count that `fits` it.
#[verifier::spinoff_prover]
proof fn lemma_chosen(
    kind: FatKind,
    available: int,
    fat_count: int,
    sector_size: u32,
    bytes: int,
    asked: Option<u32>,
)
    requires
        valid_sector_size(sector_size as int),
        0 < available <= u32::MAX,
        fat_count == 1 || fat_count == 2,
        spec_chosen(kind, available, fat_count, sector_size, bytes, asked) is Ok,
    ensures
        ({
            let (cs, (fat, clusters)) = spec_chosen(kind, available, fat_count, sector_size, bytes, asked)->Ok_0;
            &&& valid_cluster_sectors(cs as int)
            &&& cs * sector_size <= MAX_CLUSTER_BYTES
            &&& fits(kind, available, fat_count, sector_size as int, cs as int) == Ok::<(u32, u32), LayoutError>((fat, clusters))
        }),
{
    let ss = sector_size as int;
    let max = max_cluster_sectors(ss);
    assert(valid_cluster_sectors(max) && max * ss <= MAX_CLUSTER_BYTES) by {
        if ss == 512 {
        } else if ss == 1024 {
        } else if ss == 2048 {
        } else {
        }
    }
    match asked {
        Some(size) => {
            let q = (size / sector_size) as int;
            assert(size == q * ss) by {
                vstd::arithmetic::div_mod::lemma_fundamental_div_mod(size as int, ss);
            }
            assert(q >= 1) by (nonlinear_arith)
                requires
                    size == q * ss,
                    size >= 1,
                    ss >= 1,
            ;
            assert(is_pow2(ss)) by {
                reveal_with_fuel(is_pow2, 13);
            }
            lemma_pow2_factor(q, ss);
            lemma_pow2_cluster_sectors(q);
            assert(q * ss <= MAX_CLUSTER_BYTES) by (nonlinear_arith)
                requires
                    q <= max,
                    max * ss <= MAX_CLUSTER_BYTES,
                    ss >= 1,
            ;
        },
        None => {
            let d = spec_default_cluster_sectors(kind, bytes / MIB as int);
            let target = d * 512 / ss;
            let start = if target < 1 {
                1
            } else if target > max {
                max
            } else {
                target
            };
            assert(valid_cluster_sectors(start)) by {
                assert(valid_cluster_sectors(d as int));
                if ss == 512 {
                } else if ss == 1024 {
                } else if ss == 2048 {
                } else {
                }
            }
            lemma_search(kind, available, fat_count, ss, max, start, None);
            let cs = spec_chosen(kind, available, fat_count, sector_size, bytes, asked)->Ok_0.0 as int;
            assert(cs * ss <= MAX_CLUSTER_BYTES) by (nonlinear_arith)
                requires
                    cs <= max,
                    max * ss <= MAX_CLUSTER_BYTES,
                    ss >= 1,
            ;
        },
    }
}

/// Whatever [`plan`] gives is a consistent layout.
#[verifier::rlimit(60)]
pub proof fn lemma_plan_wf(r: Request)
    requires
        spec_plan(r) is Ok,
    ensures
        spec_plan(r)->Ok_0.wf(),
{
    let l = spec_plan(r)->Ok_0;
    let ss = r.sector_size as int;
    let total = r.total_sectors as int;
    let bytes = total * ss;
    let kind = l.kind;
    let available = l.spec_available();
    let count = r.fat_count as int;
    assert(0 < available <= u32::MAX);
    lemma_chosen(kind, available, count, r.sector_size, bytes, r.cluster_size);
    let cs = l.cluster_sectors as int;
    lemma_fits(kind, available, count, ss, cs);
    assert(kind != FatKind::Fat32 ==> l.fat_sectors <= 0xFFFF) by {
        if kind != FatKind::Fat32 && l.fat_sectors > 1 {
            assert(!covers(kind, available, cs, count, ss, l.fat_sectors - 1));
            lemma_small_fat(kind, available, cs, count, ss, l.fat_sectors as int, l.clusters as int);
        }
    }
    assert(valid_sector_size(ss));
    assert(valid_cluster_sectors(cs));
    assert(cs * ss <= MAX_CLUSTER_BYTES);
    assert(l.fat_count == 1 || l.fat_count == 2);
    assert(l.reserved_sectors >= 1);
    assert((l.kind == FatKind::Fat32) == (l.root_entries == 0)) by {
        if kind != FatKind::Fat32 {
            let ps = ss / 32;
            let asked = r.root_entries as int;
            assert(ps >= 16);
            assert(asked >= 1);
            assert(ceil_div(asked, ps) * ps >= asked) by (nonlinear_arith)
                requires
                    asked >= 1,
                    ps >= 1,
                    ceil_div(asked, ps) == (asked + ps - 1) / ps,
            ;
        }
    }
    assert(l.fat_sectors >= 1);
    assert(spec_cluster_range(l.kind).0 <= l.clusters <= spec_cluster_range(l.kind).1);
    assert(l.clusters == clusters_beside(available, cs, count, l.fat_sectors as int));
    assert(fat_needed(l.kind, available, cs, count, ss, l.fat_sectors as int) <= l.fat_sectors);
}

} // verus!
