//! What `format` writes besides the boot sector: the serial, the FAT
//! entries of the system clusters, the bitmaps' first bytes and the root
//! directory's first entries.

use vstd::prelude::*;
use crate::bytes::{get16, get32, get64, write16, write32, write64};
use crate::exfat::boot::root_cluster;
use crate::exfat::mkfs::{Layout, FIRST_CLUSTER, UPCASE_TABLE_LEN};
use crate::exfat::options::ExFatOptions;
use crate::options::Timestamp;
use crate::exfat::upcase::bit_set;

verus! {

/// FAT entry 0, the media type.
pub const FAT_MEDIA: u32 = 0xFFFF_FFF8;
/// A FAT entry ending a cluster chain.
pub const FAT_END: u32 = 0xFFFF_FFFF;
/// Allocation Bitmap entry.
pub const ENTRY_BITMAP: u8 = 0x81;
/// Up-case Table entry.
pub const ENTRY_UPCASE: u8 = 0x82;
/// Volume Label entry.
pub const ENTRY_LABEL: u8 = 0x83;
/// The `TableChecksum` of the recommended up-case table.
pub const RECOMMENDED_UPCASE_CHECKSUM: u32 = 0xE619_D30D;

/// `n` rotated left by 16 bits.
pub open spec fn rotl16(n: u32) -> u32 {
    (n << 16u32) | (n >> 16u32)
}

/// The serial of a volume made at `time`: the seconds folded to 32 bits,
/// mixed with the nanoseconds rotated by 16 bits.
pub open spec fn spec_volume_id(time: Timestamp) -> u32 {
    let seconds = time.seconds as u64;
    (seconds as u32) ^ ((seconds >> 32u64) as u32) ^ rotl16(time.nanos)
}

/// The serial of a volume made at `time`.
pub fn volume_id(time: Timestamp) -> (id: u32)
    ensures
        id == spec_volume_id(time),
{
    let seconds = time.seconds as u64;
    (seconds as u32) ^ ((seconds >> 32u64) as u32) ^ ((time.nanos << 16u32) | (time.nanos
        >> 16u32))
}

/// The FAT entry `format` writes for system cluster `cluster`: the two
/// bitmaps, the up-case table and the root directory each form a chain
/// of consecutive clusters, and each chain ends on its last cluster.
pub open spec fn spec_chain_next(l: Layout, cluster: int) -> u32 {
    let upcase = FIRST_CLUSTER + l.bitmap_clusters * l.fats;
    let root = upcase + l.upcase_clusters;
    let last = if cluster < upcase {
        (cluster + 1 - FIRST_CLUSTER) % (l.bitmap_clusters as int) == 0
    } else {
        cluster == root || cluster + 1 == root
    };
    if last {
        FAT_END
    } else {
        (cluster + 1) as u32
    }
}

/// The system clusters form one chain for each Allocation Bitmap, then
/// one for the up-case table, then the root directory's single cluster:
/// with `n` clusters to a bitmap, cluster `k` of bitmap `i` links to the
/// next cluster, its last ends the chain; likewise the up-case table's
/// clusters; and the root directory's cluster ends its chain.
pub proof fn lemma_system_chains(l: Layout, i: int, k: int)
    requires
        l.wf(),
    ensures
        0 <= i < l.fats && 0 <= k < l.bitmap_clusters ==> {
            let c = FIRST_CLUSTER + i * l.bitmap_clusters + k;
            spec_chain_next(l, c) == if k + 1 < l.bitmap_clusters {
                (c + 1) as u32
            } else {
                FAT_END
            }
        },
        0 <= k < l.upcase_clusters ==> {
            let c = FIRST_CLUSTER + l.fats * l.bitmap_clusters + k;
            spec_chain_next(l, c) == if k + 1 < l.upcase_clusters {
                (c + 1) as u32
            } else {
                FAT_END
            }
        },
        spec_chain_next(l, root_cluster(l) as int) == FAT_END,
{
    let n = l.bitmap_clusters as int;
    if 0 <= i < l.fats && 0 <= k < n {
        let c = FIRST_CLUSTER + i * n + k;
        assert(i * n + k < l.fats * n) by (nonlinear_arith)
            requires
                0 <= i < l.fats,
                0 <= k < n,
        ;
        assert(l.bitmap_clusters * l.fats == l.fats * n) by (nonlinear_arith)
            requires
                n == l.bitmap_clusters,
        ;
        assert(c < FIRST_CLUSTER + l.bitmap_clusters * l.fats);
        assert(c + 1 - FIRST_CLUSTER == (i * n + k + 1));
        if k + 1 < n {
            vstd::arithmetic::div_mod::lemma_fundamental_div_mod_converse(i * n + k + 1, n, i, k + 1);
        } else {
            assert(i * n + k + 1 == (i + 1) * n + 0) by (nonlinear_arith)
                requires
                    k + 1 == n,
            ;
            vstd::arithmetic::div_mod::lemma_fundamental_div_mod_converse(i * n + k + 1, n, i + 1, 0);
        }
    }
    assert(l.bitmap_clusters * l.fats == l.fats * l.bitmap_clusters) by (nonlinear_arith);
}

/// The FAT entry `format` writes for system cluster `cluster`, one of the
/// bitmaps', the up-case table's or the root directory's.
pub fn chain_next(layout: &Layout, cluster: u32) -> (next: u32)
    requires
        layout.wf(),
        FIRST_CLUSTER <= cluster <= root_cluster(*layout),
    ensures
        next == spec_chain_next(*layout, cluster as int),
        next == FAT_END || next == cluster + 1,
{
    let upcase = layout.upcase_first();
    let root = layout.root();
    let last = if cluster < upcase {
        (cluster + 1 - FIRST_CLUSTER) % layout.bitmap_clusters == 0
    } else {
        cluster == root || cluster + 1 == root
    };
    if last {
        FAT_END
    } else {
        cluster + 1
    }
}

/// Byte `index` of an Allocation Bitmap whose first `used` clusters are in
/// use: one bit per cluster, the lowest bit first.
pub fn bitmap_byte(used: u64, index: u64) -> (byte: u8)
    requires
        index * 8 < used,
    ensures
        forall|k: u8| k < 8 ==> bit_set(byte, k) == (index * 8 + k < used),
{
    let bits = used - index * 8;
    if bits >= 8 {
        assert forall|k: u8| k < 8 implies bit_set(0xFF, k) by {
            assert(0xFFu8 & (1u8 << k) != 0) by (bit_vector)
                requires
                    k < 8,
            ;
        }
        0xFF
    } else {
        let b = bits as u8;
        assert(1u8 << b >= 1) by (bit_vector)
            requires
                b < 8,
        ;
        let byte = (1u8 << b) - 1;
        assert forall|k: u8| k < 8 implies bit_set(byte, k) == (k < b) by {
            assert(((1u8 << b) - 1) as u8 & (1u8 << k) != 0 <==> k < b) by (bit_vector)
                requires
                    k < 8,
                    b < 8,
            ;
        }
        byte
    }
}

/// Whether bytes `from` to `to` of `s` are zero.
pub open spec fn zero_in(s: Seq<u8>, from: int, to: int) -> bool {
    forall|i: int| from <= i < to ==> s[i] == 0
}

/// Whether `e` is the Volume Label entry of the label `units`.
pub open spec fn label_entry(e: Seq<u8>, units: Seq<u16>) -> bool {
    &&& e.len() == 32
    &&& e[0] == ENTRY_LABEL
    &&& e[1] == units.len()
    &&& forall|k: int| 0 <= k < units.len() ==> get16(e, 2 + 2 * k) == #[trigger] units[k]
    &&& zero_in(e, 2 + 2 * units.len() as int, 32)
}

/// Whether `e` is the Allocation Bitmap entry of bitmap `index` of `l`.
pub open spec fn bitmap_entry(e: Seq<u8>, l: Layout, index: int) -> bool {
    &&& e.len() == 32
    &&& e[0] == ENTRY_BITMAP
    &&& e[1] == index
    &&& zero_in(e, 2, 20)
    &&& get32(e, 20) == FIRST_CLUSTER + l.bitmap_clusters * index
    &&& get64(e, 24) == (l.cluster_count + 7) / 8
}

/// Whether `e` is the Up-case Table entry of `l`.
pub open spec fn upcase_entry(e: Seq<u8>, l: Layout) -> bool {
    &&& e.len() == 32
    &&& e[0] == ENTRY_UPCASE
    &&& zero_in(e, 1, 4)
    &&& get32(e, 4) == RECOMMENDED_UPCASE_CHECKSUM
    &&& zero_in(e, 8, 20)
    &&& get32(e, 20) == FIRST_CLUSTER + l.bitmap_clusters * l.fats
    &&& get64(e, 24) == UPCASE_TABLE_LEN
}

/// The Volume Label entry of the label `units`.
fn label_bytes(units: &[u16]) -> (e: [u8; 32])
    requires
        units@.len() <= 11,
    ensures
        label_entry(e@, units@),
{
    let mut e = [0u8; 32];
    e[0] = ENTRY_LABEL;
    e[1] = units.len() as u8;
    let mut k: usize = 0;
    while k < units.len()
        invariant
            k <= units@.len() <= 11,
            e@.len() == 32,
            e@[0] == ENTRY_LABEL,
            e@[1] == units@.len(),
            forall|j: int| 0 <= j < k ==> get16(e@, 2 + 2 * j) == #[trigger] units@[j],
            zero_in(e@, 2 + 2 * k, 32),
        decreases units@.len() - k,
    {
        let ghost before = e@;
        write16(&mut e, 2 + 2 * k, units[k]);
        assert forall|j: int| 0 <= j < k + 1 implies get16(e@, 2 + 2 * j) == #[trigger] units@[j] by {
            if j < k {
                assert(e@[2 + 2 * j] == before[2 + 2 * j]);
                assert(e@[3 + 2 * j] == before[3 + 2 * j]);
            }
        }
        k += 1;
    }
    e
}

/// The Allocation Bitmap entry of bitmap `index`.
fn bitmap_bytes(layout: &Layout, index: u8) -> (e: [u8; 32])
    requires
        layout.wf(),
        index < layout.fats,
    ensures
        bitmap_entry(e@, *layout, index as int),
{
    let mut e = [0u8; 32];
    e[0] = ENTRY_BITMAP;
    e[1] = index;
    write32(&mut e, 20, layout.bitmap_first(index));
    write64(&mut e, 24, layout.bitmap_len());
    e
}

/// The Up-case Table entry of the recommended table.
fn upcase_bytes(layout: &Layout) -> (e: [u8; 32])
    requires
        layout.wf(),
    ensures
        upcase_entry(e@, *layout),
{
    let mut e = [0u8; 32];
    e[0] = ENTRY_UPCASE;
    write32(&mut e, 4, RECOMMENDED_UPCASE_CHECKSUM);
    write32(&mut e, 20, layout.upcase_first());
    write64(&mut e, 24, UPCASE_TABLE_LEN);
    e
}

/// The root directory's first entries: the label, when there is one, the
/// Allocation Bitmaps and the Up-case Table; and how many there are. The
/// unused slots stay zero.
pub fn root_entries(layout: &Layout, options: &ExFatOptions) -> (r: ([[u8; 32]; 4], usize))
    requires
        layout.wf(),
    ensures
        ({
            let (entries, count) = r;
            let first = if options.label is Some {
                1int
            } else {
                0
            };
            &&& count == first + layout.fats + 1
            &&& options.label matches Some(label) ==> label_entry(
                entries@[0]@,
                label.spec_units(),
            )
            &&& forall|i: int|
                0 <= i < layout.fats ==> bitmap_entry(#[trigger] entries@[first + i]@, *layout, i)
            &&& upcase_entry(entries@[first + layout.fats]@, *layout)
            &&& forall|i: int| count <= i < 4 ==> #[trigger] entries@[i]@ == seq![0u8; 32]
        }),
{
    let mut entries = [[0u8; 32]; 4];
    let mut count: usize = 0;
    if let Some(label) = &options.label {
        entries[0] = label_bytes(label.as_utf16());
        count = 1;
    }
    let ghost first = count as int;
    let mut index: u8 = 0;
    while index < layout.fats
        invariant
            layout.wf(),
            index <= layout.fats,
            count == first + index,
            first == (if options.label is Some {
                1int
            } else {
                0
            }),
            options.label matches Some(label) ==> label_entry(entries@[0]@, label.spec_units()),
            forall|i: int| 0 <= i < index ==> bitmap_entry(#[trigger] entries@[first + i]@, *layout, i),
            forall|i: int| count <= i < 4 ==> #[trigger] entries@[i]@ == seq![0u8; 32],
        decreases layout.fats - index,
    {
        entries[count] = bitmap_bytes(layout, index);
        count += 1;
        index += 1;
    }
    entries[count] = upcase_bytes(layout);
    count += 1;
    (entries, count)
}

} // verus!
