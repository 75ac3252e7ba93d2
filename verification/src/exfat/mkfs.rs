//! Where formatting puts an exFAT volume's structures.

use vstd::prelude::*;
use vstd::arithmetic::power2::pow2;
use crate::error::ErrorKind;
use crate::layout::is_pow2;
use crate::boot::ceil_div;
use crate::exfat::options::ExFatOptions;

verus! {

/// The smallest volume `format` lays out: 1 MiB.
pub const MIN_VOLUME: u64 = 1_048_576;
/// The largest cluster size: 32 MiB.
pub const MAX_CLUSTER: u32 = 33_554_432;
/// Bytes of the recommended up-case table.
pub const UPCASE_TABLE_LEN: u64 = 5836;
/// The most clusters a heap has.
pub const MAX_CLUSTER_COUNT: u32 = 0xFFFF_FFF5;
/// The first cluster of the heap.
pub const FIRST_CLUSTER: u32 = 2;

/// Where `format` puts the volume's structures, in sectors and clusters.
#[derive(Debug, Clone, Copy, PartialEq, Eq, Structural)]
pub struct Layout {
    /// log2 of the sector size.
    pub sector_shift: u8,
    /// log2 of the cluster size.
    pub cluster_shift: u8,
    /// Sectors in the volume.
    pub volume_sectors: u64,
    /// Sector of the first FAT.
    pub fat_offset: u32,
    /// Sectors of each FAT.
    pub fat_length: u32,
    /// Sector of the cluster heap.
    pub heap_offset: u32,
    /// Clusters in the heap.
    pub cluster_count: u32,
    /// FATs and Allocation Bitmaps.
    pub fats: u8,
    /// Clusters of each Allocation Bitmap.
    pub bitmap_clusters: u32,
    /// Clusters of the up-case table.
    pub upcase_clusters: u32,
}

impl Layout {
    /// Whether the sizes are those [`plan`] gives and the bitmaps, the
    /// up-case table and the root directory fit the heap.
    pub open spec fn wf(&self) -> bool {
        &&& 9 <= self.sector_shift <= 12
        &&& self.sector_shift <= self.cluster_shift <= 25
        &&& 1 <= self.fats <= 2
        &&& 1 <= self.bitmap_clusters
        &&& self.bitmap_clusters * self.fats + self.upcase_clusters + 2 <= self.cluster_count
    }

    /// Bytes per sector.
    pub fn sector(&self) -> (n: u64)
        requires
            self.wf(),
        ensures
            n == pow2(self.sector_shift as nat),
    {
        proof {
            vstd::bits::lemma_u64_pow2_no_overflow(self.sector_shift as nat);
            vstd::bits::lemma_u64_shl_is_mul(1, self.sector_shift as u64);
        }
        1u64 << self.sector_shift as u64
    }

    /// Bytes per cluster.
    pub fn cluster(&self) -> (n: u64)
        requires
            self.wf(),
        ensures
            n == pow2(self.cluster_shift as nat),
    {
        proof {
            vstd::bits::lemma_u64_pow2_no_overflow(self.cluster_shift as nat);
            vstd::bits::lemma_u64_shl_is_mul(1, self.cluster_shift as u64);
        }
        1u64 << self.cluster_shift as u64
    }

    /// Byte offset of `cluster` in the volume.
    pub fn cluster_at(&self, cluster: u32) -> (at: u64)
        requires
            self.wf(),
            cluster >= FIRST_CLUSTER,
        ensures
            at == self.heap_offset * pow2(self.sector_shift as nat) + (cluster - FIRST_CLUSTER) * pow2(
                self.cluster_shift as nat,
            ),
    {
        let sector = self.sector();
        let size = self.cluster();
        proof {
            vstd::arithmetic::power2::lemma2_to64();
            if self.cluster_shift < 25 {
                vstd::arithmetic::power2::lemma_pow2_strictly_increases(self.cluster_shift as nat, 25);
            }
            if self.sector_shift < 12 {
                vstd::arithmetic::power2::lemma_pow2_strictly_increases(self.sector_shift as nat, 12);
            }
        }
        assert(self.heap_offset * sector <= 0xFFFF_FFFF * 4096) by (nonlinear_arith)
            requires
                sector <= 4096,
        ;
        let index: u32 = cluster - FIRST_CLUSTER;
        assert(index * size <= 0xFFFF_FFFF * 0x200_0000) by (nonlinear_arith)
            requires
                size <= 0x200_0000,
                index <= 0xFFFF_FFFF,
        ;
        self.heap_offset as u64 * sector + index as u64 * size
    }

    /// Bytes of each Allocation Bitmap: one bit a cluster.
    pub fn bitmap_len(&self) -> (n: u64)
        ensures
            n == (self.cluster_count + 7) / 8,
    {
        (self.cluster_count as u64 + 7) / 8
    }

    /// The first cluster of Allocation Bitmap `index`.
    pub fn bitmap_first(&self, index: u8) -> (c: u32)
        requires
            self.wf(),
            index <= self.fats,
        ensures
            c == FIRST_CLUSTER + self.bitmap_clusters * index,
    {
        assert(self.bitmap_clusters * index <= self.bitmap_clusters * self.fats) by (nonlinear_arith)
            requires
                index <= self.fats,
        ;
        FIRST_CLUSTER + self.bitmap_clusters * index as u32
    }

    /// The first cluster of the up-case table, after the bitmaps.
    pub fn upcase_first(&self) -> (c: u32)
        requires
            self.wf(),
        ensures
            c == FIRST_CLUSTER + self.bitmap_clusters * self.fats,
    {
        self.bitmap_first(self.fats)
    }

    /// The root directory's cluster, after the up-case table.
    pub fn root(&self) -> (c: u32)
        requires
            self.wf(),
        ensures
            c == FIRST_CLUSTER + self.bitmap_clusters * self.fats + self.upcase_clusters,
    {
        self.upcase_first() + self.upcase_clusters
    }

    /// Clusters the empty volume uses: the bitmaps, the up-case table and
    /// the root directory.
    pub fn used(&self) -> (n: u32)
        requires
            self.wf(),
        ensures
            n == self.bitmap_clusters * self.fats + self.upcase_clusters + 1,
    {
        self.bitmap_clusters * self.fats as u32 + self.upcase_clusters + 1
    }
}

/// The exponent of the largest power of two at most `n` (0 below 2).
pub open spec fn log2(n: int) -> nat
    decreases n,
{
    if n <= 1 {
        0
    } else {
        1 + log2(n / 2)
    }
}

/// A power of two is one, and its exponent is what [`log2`] gives.
proof fn lemma_log2_of_pow2(k: nat)
    ensures
        is_pow2(pow2(k) as int),
        log2(pow2(k) as int) == k,
    decreases k,
{
    if k == 0 {
        vstd::arithmetic::power2::lemma2_to64();
    } else {
        vstd::arithmetic::power2::lemma_pow2_unfold(k);
        vstd::arithmetic::power2::lemma_pow2_pos((k - 1) as nat);
        lemma_log2_of_pow2((k - 1) as nat);
    }
}

/// Two to the [`log2`] of a power of two is that power of two.
proof fn lemma_pow2_of_log2(n: int)
    requires
        is_pow2(n),
    ensures
        pow2(log2(n)) == n,
    decreases n,
{
    if n == 1 {
        vstd::arithmetic::power2::lemma2_to64();
    } else {
        lemma_pow2_of_log2(n / 2);
        vstd::arithmetic::power2::lemma_pow2_unfold(log2(n));
    }
}

/// log2 of `value` when it is a power of two.
pub fn shift_of(value: u64) -> (r: Option<u8>)
    ensures
        r == (if is_pow2(value as int) {
            Some(log2(value as int) as u8)
        } else {
            None::<u8>
        }),
{
    let mut k: u64 = 0;
    while k < 64
        invariant
            k <= 64,
            forall|j: nat| j < k ==> pow2(j) != value,
        decreases 64 - k,
    {
        proof {
            vstd::bits::lemma_u64_pow2_no_overflow(k as nat);
            vstd::bits::lemma_u64_shl_is_mul(1, k);
        }
        if (1u64 << k) == value {
            proof {
                lemma_log2_of_pow2(k as nat);
            }
            return Some(k as u8);
        }
        k += 1;
    }
    proof {
        if is_pow2(value as int) {
            lemma_pow2_of_log2(value as int);
            let e = log2(value as int);
            if e >= 64 {
                vstd::arithmetic::power2::lemma2_to64();
                if e > 64 {
                    vstd::arithmetic::power2::lemma_pow2_strictly_increases(64, e);
                }
            }
            assert(pow2(e) != value);
        }
    }
    None
}

/// `x` rounded up to a multiple of `m`.
pub open spec fn round_up(x: int, m: int) -> int {
    (x + m - 1) / m * m
}

/// The FAT length, heap offset and cluster count found from `count`
/// clusters: the FATs sized for the count, the heap aligned after them,
/// and the count cut to the clusters that fit after the heap offset,
/// until they all fit.
pub open spec fn spec_fit(
    volume_sectors: int,
    fat_offset: int,
    fats: int,
    sector: int,
    align: int,
    per_cluster: int,
    count: int,
) -> (int, int, int)
    decreases count,
{
    let fat_length = ((count + 2) * 4 + sector - 1) / sector;
    let heap = round_up(fat_offset + fat_length * fats, align);
    let fits = if volume_sectors > heap {
        (volume_sectors - heap) / per_cluster
    } else {
        0
    };
    if fits >= count || count <= 0 || per_cluster < 1 {
        (fat_length, heap, count)
    } else {
        spec_fit(volume_sectors, fat_offset, fats, sector, align, per_cluster, fits)
    }
}

/// The sector size `format` uses: the option, else the device's block
/// size when it is 512 to 4096 bytes, else 512.
pub open spec fn spec_sector(block_size: u32, options: ExFatOptions) -> int {
    match options.sector_size {
        Some(size) => size as int,
        None => if block_size == 512 || block_size == 1024 || block_size == 2048 || block_size
            == 4096 {
            block_size as int
        } else {
            512
        },
    }
}

/// The cluster size chosen when none is given: 4 KiB below 256 MiB,
/// 32 KiB below 32 GiB, 128 KiB above.
pub open spec fn default_cluster(volume: int) -> int {
    if volume < 268_435_456 {
        4096
    } else if volume < 34_359_738_368 {
        32768
    } else {
        131072
    }
}

/// What the FAT and the heap are aligned to when nothing is given: 1 MiB
/// on volumes of 64 MiB or more, the cluster below.
pub open spec fn default_alignment(volume: int, cluster: int) -> int {
    if volume >= 67_108_864 {
        1_048_576
    } else {
        cluster
    }
}

/// The cluster size `format` uses: the option, else one chosen from the
/// volume's size in whole sectors.
pub open spec fn spec_cluster(device_bytes: u64, block_size: u32, options: ExFatOptions) -> int {
    let sector = spec_sector(block_size, options);
    match options.cluster_size {
        Some(size) => size as int,
        None => default_cluster(device_bytes as int / sector * sector),
    }
}

/// What `format` aligns the FAT and the heap to: the option, else one
/// chosen from the volume's size.
pub open spec fn spec_alignment(device_bytes: u64, block_size: u32, options: ExFatOptions) -> int {
    let sector = spec_sector(block_size, options);
    match options.alignment {
        Some(size) => size as int,
        None => default_alignment(
            device_bytes as int / sector * sector,
            spec_cluster(device_bytes, block_size, options),
        ),
    }
}

/// The layout [`plan`] gives a device of `device_bytes` whose blocks are
/// `block_size` bytes, or why there is none.
pub open spec fn spec_plan(device_bytes: u64, block_size: u32, options: ExFatOptions) -> Result<
    Layout,
    ErrorKind,
> {
    let sector = spec_sector(block_size, options);
    let fats = options.fat_count as int;
    if !(sector == 512 || sector == 1024 || sector == 2048 || sector == 4096) || !(fats == 1
        || fats == 2) {
        Err(ErrorKind::InvalidInput)
    } else {
        let volume_sectors = device_bytes as int / sector;
        let cluster = spec_cluster(device_bytes, block_size, options);
        let align = spec_alignment(device_bytes, block_size, options);
        if volume_sectors * sector < MIN_VOLUME {
            Err(ErrorKind::NoSpace)
        } else if !is_pow2(cluster) || cluster < sector || cluster > MAX_CLUSTER {
            Err(ErrorKind::InvalidInput)
        } else if !is_pow2(align) || align < sector {
            Err(ErrorKind::InvalidInput)
        } else {
            spec_heap(volume_sectors, sector, cluster, align, options.fat_count)
        }
    }
}

/// The layout of a volume of `volume_sectors` sectors of `sector` bytes
/// with clusters of `cluster` bytes, whose FATs and heap are aligned to
/// `align` bytes, or why there is none.
pub open spec fn spec_heap(volume_sectors: int, sector: int, cluster: int, align: int, fats: u8) -> Result<
    Layout,
    ErrorKind,
> {
    let align_sectors = align / sector;
    let per_cluster = cluster / sector;
    let fat_offset = round_up(24, align_sectors);
    let most = volume_sectors / per_cluster;
    let start = if most < MAX_CLUSTER_COUNT {
        most
    } else {
        MAX_CLUSTER_COUNT as int
    };
    let (fat_length, heap_offset, count) = spec_fit(
        volume_sectors,
        fat_offset,
        fats as int,
        sector,
        align_sectors,
        per_cluster,
        start,
    );
    if fat_offset > 0xFFFF_FFFF || fat_length > 0xFFFF_FFFF || heap_offset > 0xFFFF_FFFF {
        Err(ErrorKind::LimitExceeded)
    } else {
        let bitmap = ceil_div(ceil_div(count, 8), cluster);
        let upcase = ceil_div(UPCASE_TABLE_LEN as int, cluster);
        if count < bitmap * fats + upcase + 2 {
            Err(ErrorKind::NoSpace)
        } else {
            Ok(
                Layout {
                    sector_shift: log2(sector) as u8,
                    cluster_shift: log2(cluster) as u8,
                    volume_sectors: volume_sectors as u64,
                    fat_offset: fat_offset as u32,
                    fat_length: fat_length as u32,
                    heap_offset: heap_offset as u32,
                    cluster_count: count as u32,
                    fats,
                    bitmap_clusters: bitmap as u32,
                    upcase_clusters: upcase as u32,
                },
            )
        }
    }
}

/// `x` rounded up to a multiple of `m`.
fn next_multiple(x: u64, m: u64) -> (r: u64)
    requires
        m >= 1,
        x + m <= u64::MAX,
    ensures
        r == round_up(x as int, m as int),
        x <= r < x + m,
        r % m == 0,
{
    let q = (x + m - 1) / m;
    assert(q * m <= x + m - 1 && q * m > x - 1 && (q * m) % (m as int) == 0) by (nonlinear_arith)
        requires
            m >= 1,
            q == (x + m - 1) / (m as int),
    ;
    q * m
}

/// The sector sizes are powers of two.
proof fn lemma_sector_pow2()
    ensures
        is_pow2(512) && is_pow2(1024) && is_pow2(2048) && is_pow2(4096),
{
    reveal_with_fuel(is_pow2, 14);
}

/// Sizes the FATs for `count` clusters, aligns the heap after them and
/// cuts the count to what fits after it, until everything fits.
fn fit(
    volume_sectors: u64,
    fat_offset: u64,
    fats: u8,
    sector: u64,
    align_sectors: u64,
    per_cluster: u64,
    count: u64,
) -> (r: (u64, u64, u64))
    requires
        count <= MAX_CLUSTER_COUNT,
        512 <= sector <= 4096,
        1 <= fats <= 2,
        1 <= align_sectors <= 0xFFFF_FFFF,
        1 <= per_cluster,
        fat_offset < 24 + align_sectors,
    ensures
        (r.0 as int, r.1 as int, r.2 as int) == spec_fit(
            volume_sectors as int,
            fat_offset as int,
            fats as int,
            sector as int,
            align_sectors as int,
            per_cluster as int,
            count as int,
        ),
        r.2 <= count,
{
    let ghost goal = spec_fit(
        volume_sectors as int,
        fat_offset as int,
        fats as int,
        sector as int,
        align_sectors as int,
        per_cluster as int,
        count as int,
    );
    let mut count = count;
    let ghost first = count;
    let mut fat_length: u64 = 0;
    let mut heap_offset: u64 = 0;
    loop
        invariant
            count <= first <= MAX_CLUSTER_COUNT,
            512 <= sector <= 4096,
            1 <= fats <= 2,
            1 <= align_sectors <= 0xFFFF_FFFF,
            1 <= per_cluster,
            fat_offset < 24 + align_sectors,
            goal == spec_fit(
                volume_sectors as int,
                fat_offset as int,
                fats as int,
                sector as int,
                align_sectors as int,
                per_cluster as int,
                count as int,
            ),
        ensures
            goal == (fat_length as int, heap_offset as int, count as int),
            count <= first,
        decreases count,
    {
        let length = ((count + 2) * 4 + sector - 1) / sector;
        assert(length * fats <= 2 * (count + 2) * 4) by (nonlinear_arith)
            requires
                sector >= 512,
                fats <= 2,
                length == ((count + 2) * 4 + sector - 1) / (sector as int),
        ;
        let heap = next_multiple(fat_offset + length * fats as u64, align_sectors);
        let fits = if volume_sectors > heap {
            (volume_sectors - heap) / per_cluster
        } else {
            0
        };
        if fits >= count {
            fat_length = length;
            heap_offset = heap;
            break ;
        }
        count = fits;
    }
    (fat_length, heap_offset, count)
}

/// Plans an exFAT volume on a device of `device_bytes` whose blocks are
/// `block_size` bytes, or says why it cannot: `ErrorKind::InvalidInput`
/// when an option is out of range, `ErrorKind::NoSpace` below 1 MiB or
/// when the clusters asked for leave no room for the bitmaps, the up-case
/// table and the root directory, `ErrorKind::LimitExceeded` when an offset
/// does not fit its 32-bit field.
pub fn plan(device_bytes: u64, block_size: u32, options: &ExFatOptions) -> (r: Result<
    Layout,
    ErrorKind,
>)
    ensures
        r == spec_plan(device_bytes, block_size, *options),
{
    let sector: u64 = match options.sector_size {
        Some(size) => size as u64,
        None => if block_size == 512 || block_size == 1024 || block_size == 2048 || block_size
            == 4096 {
            block_size as u64
        } else {
            512
        },
    };
    let fats = options.fat_count;
    if !(sector == 512 || sector == 1024 || sector == 2048 || sector == 4096) || !(fats == 1 || fats
        == 2) {
        return Err(ErrorKind::InvalidInput);
    }
    proof {
        lemma_sector_pow2();
    }
    let sector_shift = match shift_of(sector) {
        Some(k) => k,
        None => return Err(ErrorKind::InvalidInput),
    };
    let volume_sectors = device_bytes / sector;
    assert(volume_sectors * sector <= device_bytes) by (nonlinear_arith)
        requires
            sector >= 1,
            volume_sectors == device_bytes / sector,
    ;
    let volume = volume_sectors * sector;
    let cluster: u64 = match options.cluster_size {
        Some(size) => size as u64,
        None => if volume < 268_435_456 {
            4096
        } else if volume < 34_359_738_368 {
            32768
        } else {
            131072
        },
    };
    let align: u64 = match options.alignment {
        Some(size) => size as u64,
        None => if volume >= 67_108_864 {
            1_048_576
        } else {
            cluster
        },
    };
    if volume < MIN_VOLUME {
        return Err(ErrorKind::NoSpace);
    }
    let cluster_shift = match shift_of(cluster) {
        Some(k) => k,
        None => return Err(ErrorKind::InvalidInput),
    };
    if cluster < sector || cluster > MAX_CLUSTER as u64 {
        return Err(ErrorKind::InvalidInput);
    }
    if shift_of(align).is_none() || align < sector {
        return Err(ErrorKind::InvalidInput);
    }
    heap(volume_sectors, sector, sector_shift, cluster, cluster_shift, align, fats)
}

/// Places the FATs and the cluster heap of a volume of `volume_sectors`
/// sectors: the work of [`plan`] once the sizes are checked.
fn heap(
    volume_sectors: u64,
    sector: u64,
    sector_shift: u8,
    cluster: u64,
    cluster_shift: u8,
    align: u64,
    fats: u8,
) -> (r: Result<Layout, ErrorKind>)
    requires
        512 <= sector <= 4096,
        sector <= cluster <= MAX_CLUSTER,
        sector <= align <= 0xFFFF_FFFF,
        1 <= fats <= 2,
        sector_shift == log2(sector as int) as u8,
        cluster_shift == log2(cluster as int) as u8,
    ensures
        r == spec_heap(volume_sectors as int, sector as int, cluster as int, align as int, fats),
{
    let align_sectors = align / sector;
    let per_cluster = cluster / sector;
    assert(1 <= align_sectors <= align && 1 <= per_cluster <= cluster) by (nonlinear_arith)
        requires
            sector >= 1,
            align >= sector,
            cluster >= sector,
            align_sectors == align / sector,
            per_cluster == cluster / sector,
    ;
    let fat_offset = next_multiple(24, align_sectors);
    let most = volume_sectors / per_cluster;
    let count: u64 = if most < MAX_CLUSTER_COUNT as u64 {
        most
    } else {
        MAX_CLUSTER_COUNT as u64
    };
    let (fat_length, heap_offset, count) = fit(
        volume_sectors,
        fat_offset,
        fats,
        sector,
        align_sectors,
        per_cluster,
        count,
    );
    if fat_offset > 0xFFFF_FFFF || fat_length > 0xFFFF_FFFF || heap_offset > 0xFFFF_FFFF {
        return Err(ErrorKind::LimitExceeded);
    }
    let bitmap = ((count + 7) / 8 + cluster - 1) / cluster;
    let upcase = (UPCASE_TABLE_LEN + cluster - 1) / cluster;
    assert(bitmap <= count && upcase <= UPCASE_TABLE_LEN) by (nonlinear_arith)
        requires
            cluster >= 512,
            bitmap == ((count + 7) / 8 + cluster - 1) / (cluster as int),
            upcase == (UPCASE_TABLE_LEN + cluster - 1) / (cluster as int),
    ;
    assert(bitmap * fats <= 2 * count) by (nonlinear_arith)
        requires
            bitmap <= count,
            fats <= 2,
    ;
    if count < bitmap * fats as u64 + upcase + 2 {
        return Err(ErrorKind::NoSpace);
    }
    Ok(
        Layout {
            sector_shift,
            cluster_shift,
            volume_sectors,
            fat_offset: fat_offset as u32,
            fat_length: fat_length as u32,
            heap_offset: heap_offset as u32,
            cluster_count: count as u32,
            fats,
            bitmap_clusters: bitmap as u32,
            upcase_clusters: upcase as u32,
        },
    )
}

/// What `spec_fit` finds: a count no larger than the one it starts
/// from, the FATs sized for it, the heap aligned after them and, unless
/// no cluster is left, every cluster inside the volume.
proof fn lemma_fit(
    volume_sectors: int,
    fat_offset: int,
    fats: int,
    sector: int,
    align: int,
    per_cluster: int,
    count: int,
)
    requires
        sector >= 1,
        align >= 1,
        per_cluster >= 1,
        count >= 0,
    ensures
        ({
            let (fat_length, heap, found) = spec_fit(
                volume_sectors,
                fat_offset,
                fats,
                sector,
                align,
                per_cluster,
                count,
            );
            &&& 0 <= found <= count
            &&& fat_length == ((found + 2) * 4 + sector - 1) / sector
            &&& heap == round_up(fat_offset + fat_length * fats, align)
            &&& found >= 1 ==> heap + found * per_cluster <= volume_sectors
        }),
    decreases count,
{
    let fat_length = ((count + 2) * 4 + sector - 1) / sector;
    let heap = round_up(fat_offset + fat_length * fats, align);
    let fits = if volume_sectors > heap {
        (volume_sectors - heap) / per_cluster
    } else {
        0
    };
    assert(fits >= 0) by (nonlinear_arith)
        requires
            per_cluster >= 1,
            fits == (if volume_sectors > heap {
                (volume_sectors - heap) / per_cluster
            } else {
                0
            }),
    ;
    if fits >= count || count <= 0 {
        if count >= 1 {
            assert(heap + count * per_cluster <= volume_sectors) by (nonlinear_arith)
                requires
                    per_cluster >= 1,
                    count >= 1,
                    fits >= count,
                    fits == (if volume_sectors > heap {
                        (volume_sectors - heap) / per_cluster
                    } else {
                        0
                    }),
            ;
        }
    } else {
        lemma_fit(volume_sectors, fat_offset, fats, sector, align, per_cluster, fits);
    }
}

/// Rounding `x` up to a multiple of `m` gives a multiple of `m` no smaller
/// than `x` and less than `x + m`.
proof fn lemma_round_up(x: int, m: int)
    requires
        m >= 1,
    ensures
        x <= round_up(x, m) < x + m,
        round_up(x, m) % m == 0,
{
    assert(x <= (x + m - 1) / m * m < x + m && ((x + m - 1) / m * m) % m == 0) by (nonlinear_arith)
        requires
            m >= 1,
    ;
}

/// `ceil_div(a, b)` units of `b` cover `a`.
proof fn lemma_ceil_div(a: int, b: int)
    requires
        a >= 0,
        b >= 1,
    ensures
        ceil_div(a, b) * b >= a,
        ceil_div(a, b) >= 0,
{
    assert(((a + b - 1) / b) * b >= a && (a + b - 1) / b >= 0) by (nonlinear_arith)
        requires
            a >= 0,
            b >= 1,
    ;
}

/// The exponent of a power of two at most `2^e` is at most `e`.
proof fn lemma_log2_at_most(n: int, e: nat)
    requires
        is_pow2(n),
        n <= pow2(e),
    ensures
        log2(n) <= e,
        pow2(log2(n)) == n,
{
    lemma_pow2_of_log2(n);
    if log2(n) > e {
        vstd::arithmetic::power2::lemma_pow2_strictly_increases(e, log2(n));
    }
}

/// A planned volume is sound: its sector is the one asked for, its boot
/// regions come before the first FAT, each FAT has an entry for every
/// cluster and the two reserved ones, the FATs end before the heap, the
/// heap lies inside the volume, the FAT and the heap start on the
/// alignment, the bitmaps have a bit for every cluster and the up-case
/// table fits its clusters.
pub proof fn lemma_plan_sound(device_bytes: u64, block_size: u32, options: ExFatOptions)
    requires
        spec_plan(device_bytes, block_size, options) is Ok,
    ensures
        ({
            let l = spec_plan(device_bytes, block_size, options)->Ok_0;
            let sector = spec_sector(block_size, options);
            let cluster = spec_cluster(device_bytes, block_size, options);
            let align_sectors = spec_alignment(device_bytes, block_size, options) / sector;
            &&& l.wf()
            &&& pow2(l.sector_shift as nat) == sector
            &&& pow2(l.cluster_shift as nat) == cluster
            &&& l.volume_sectors == device_bytes as int / sector
            &&& l.fats == options.fat_count
            &&& 24 <= l.fat_offset
            &&& l.fat_length * sector >= (l.cluster_count + 2) * 4
            &&& l.fat_offset + l.fat_length * l.fats <= l.heap_offset
            &&& l.heap_offset + l.cluster_count * (cluster / sector) <= l.volume_sectors
            &&& (l.fat_offset as int) % align_sectors == 0
            &&& (l.heap_offset as int) % align_sectors == 0
            &&& l.bitmap_clusters * cluster * 8 >= l.cluster_count
            &&& l.upcase_clusters * cluster >= UPCASE_TABLE_LEN
        }),
{
    let sector = spec_sector(block_size, options);
    let cluster = spec_cluster(device_bytes, block_size, options);
    let align = spec_alignment(device_bytes, block_size, options);
    let volume_sectors = device_bytes as int / sector;
    let align_sectors = align / sector;
    let per_cluster = cluster / sector;
    let fat_offset = round_up(24, align_sectors);
    let most = volume_sectors / per_cluster;
    let start = if most < MAX_CLUSTER_COUNT {
        most
    } else {
        MAX_CLUSTER_COUNT as int
    };
    let fats = options.fat_count as int;
    assert(align_sectors >= 1 && per_cluster >= 1 && volume_sectors >= 0 && most >= 0) by (nonlinear_arith)
        requires
            sector >= 512,
            align >= sector,
            cluster >= sector,
            device_bytes >= 0,
            volume_sectors == device_bytes as int / sector,
            align_sectors == align / sector,
            per_cluster == cluster / sector,
            most == volume_sectors / per_cluster,
    ;
    lemma_fit(volume_sectors, fat_offset, fats, sector, align_sectors, per_cluster, start);
    let (fat_length, heap, count) = spec_fit(
        volume_sectors,
        fat_offset,
        fats,
        sector,
        align_sectors,
        per_cluster,
        start,
    );
    lemma_round_up(24, align_sectors);
    lemma_round_up(fat_offset + fat_length * fats, align_sectors);
    lemma_ceil_div((count + 2) * 4, sector);
    lemma_ceil_div(count, 8);
    lemma_ceil_div(ceil_div(count, 8), cluster);
    lemma_ceil_div(UPCASE_TABLE_LEN as int, cluster);
    let bitmap = ceil_div(ceil_div(count, 8), cluster);
    assert(bitmap >= 1) by (nonlinear_arith)
        requires
            count >= 2,
            cluster >= 1,
            ceil_div(count, 8) == (count + 7) / 8,
            bitmap == (ceil_div(count, 8) + cluster - 1) / cluster,
    ;
    assert(bitmap * cluster * 8 >= count) by (nonlinear_arith)
        requires
            bitmap * cluster >= ceil_div(count, 8),
            ceil_div(count, 8) * 8 >= count,
    ;
    assert(fat_length * fats >= 0) by (nonlinear_arith)
        requires
            fat_length >= 0,
            fats >= 1,
    ;
    vstd::arithmetic::power2::lemma2_to64();
    lemma_sector_pow2();
    lemma_log2_at_most(sector, 12);
    lemma_log2_at_most(cluster, 25);
    let ss = log2(sector);
    let cs = log2(cluster);
    if ss < 9 {
        vstd::arithmetic::power2::lemma_pow2_strictly_increases(ss, 9);
    }
    if cs < ss {
        vstd::arithmetic::power2::lemma_pow2_strictly_increases(cs, ss);
    }
}

} // verus!
