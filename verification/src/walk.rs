//! What the FAT checker decides as it reads a volume, each decision from
//! the values it read: the boot sector's fields, where a chain starts and
//! how it ends, whether it fits its file, labels and dot entries in the
//! directory tree, clusters claimed twice, FAT copies that differ, and the
//! recorded free count.

use vstd::prelude::*;
use crate::findings::Finding;
use crate::kind::FatKind;

verus! {

/// The FSInfo free count that stands for "unknown".
pub const UNKNOWN_FREE: u32 = 0xFFFF_FFFF;

/// The stored name of a directory's `.` entry.
pub const DOT: [u8; 11] = [0x2E, 0x20, 0x20, 0x20, 0x20, 0x20, 0x20, 0x20, 0x20, 0x20, 0x20];

/// The stored name of a directory's `..` entry.
pub const DOT_DOT: [u8; 11] = [0x2E, 0x2E, 0x20, 0x20, 0x20, 0x20, 0x20, 0x20, 0x20, 0x20, 0x20];

/// Whether `media` is a media descriptor: `0xF0`, or `0xF8` to `0xFF`.
pub open spec fn valid_media(media: u8) -> bool {
    media == 0xF0 || media >= 0xF8
}

/// `seq![f]` when `bad`, else nothing.
pub open spec fn when(bad: bool, f: Finding) -> Seq<Finding> {
    if bad {
        seq![f]
    } else {
        Seq::empty()
    }
}

/// The findings on the boot sector's own fields, in the order they are
/// checked: a media descriptor that is none, no reserved sectors, and a
/// 16-bit total beside a 32-bit one or on FAT32.
pub open spec fn spec_boot_field_findings(
    media: u8,
    reserved: u16,
    total16: u16,
    total32: u32,
    kind: FatKind,
) -> Seq<Finding> {
    when(!valid_media(media), Finding::BootSector("media descriptor")) + when(
        reserved == 0,
        Finding::BootSector("reserved sector count"),
    ) + when(
        total16 != 0 && (total32 != 0 || kind == FatKind::Fat32),
        Finding::BootSector("total sector count"),
    )
}

/// The findings on the boot sector's media descriptor, reserved sector
/// count and total sector counts.
pub fn boot_field_findings(media: u8, reserved: u16, total16: u16, total32: u32, kind: FatKind) -> (v:
    Vec<Finding>)
    ensures
        v@ == spec_boot_field_findings(media, reserved, total16, total32, kind),
{
    let mut v: Vec<Finding> = Vec::new();
    if !(media == 0xF0 || media >= 0xF8) {
        v.push(Finding::BootSector("media descriptor"));
    }
    let ghost a = v@;
    if reserved == 0 {
        v.push(Finding::BootSector("reserved sector count"));
    }
    let ghost b = v@;
    let fat32 = match kind {
        FatKind::Fat32 => true,
        _ => false,
    };
    if total16 != 0 && (total32 != 0 || fat32) {
        v.push(Finding::BootSector("total sector count"));
    }
    assert(a =~= when(!valid_media(media), Finding::BootSector("media descriptor")));
    assert(b =~= a + when(reserved == 0, Finding::BootSector("reserved sector count")));
    assert(v@ =~= b + when(
        total16 != 0 && (total32 != 0 || kind == FatKind::Fat32),
        Finding::BootSector("total sector count"),
    ));
    v
}

/// Where a boot sector field that names a reserved sector points: nowhere
/// when it is 0 or `0xFFFF`, `Err(finding)` when it is not among the
/// `reserved` sectors, else the sector.
pub open spec fn spec_reserved_sector(value: u16, reserved: u16, finding: Finding) -> Result<
    Option<u16>,
    Finding,
> {
    if value == 0 || value == 0xFFFF {
        Ok(None)
    } else if value >= reserved {
        Err(finding)
    } else {
        Ok(Some(value))
    }
}

/// The sector of the backup boot sector that `BPB_BkBootSec` names, if
/// any; a finding when it is past the reserved sectors.
pub fn backup_boot_sector(value: u16, reserved: u16) -> (r: Result<Option<u16>, Finding>)
    ensures
        r == spec_reserved_sector(value, reserved, Finding::BootSector("backup boot sector")),
{
    if value == 0 || value == 0xFFFF {
        Ok(None)
    } else if value >= reserved {
        Err(Finding::BootSector("backup boot sector"))
    } else {
        Ok(Some(value))
    }
}

/// The sector of the FSInfo sector that `BPB_FSInfo` names, if any; a
/// finding when it is past the reserved sectors.
pub fn fs_info_sector(value: u16, reserved: u16) -> (r: Result<Option<u16>, Finding>)
    ensures
        r == spec_reserved_sector(value, reserved, Finding::BootSector("FSInfo sector")),
{
    if value == 0 || value == 0xFFFF {
        Ok(None)
    } else if value >= reserved {
        Err(Finding::BootSector("FSInfo sector"))
    } else {
        Ok(Some(value))
    }
}

/// The finding on the free count FSInfo recorded, against the free
/// clusters counted: none when FSInfo gave none, or gave "unknown", or
/// gave the count.
pub open spec fn spec_free_count_finding(recorded: Option<u32>, free: u32) -> Option<Finding> {
    match recorded {
        Some(r) => if r != UNKNOWN_FREE && r != free {
            Some(Finding::FreeCount { recorded: r, actual: free })
        } else {
            None
        },
        None => None,
    }
}

/// The finding on the recorded free count, if it is known and wrong.
pub fn free_count_finding(recorded: Option<u32>, free: u32) -> (r: Option<Finding>)
    ensures
        r == spec_free_count_finding(recorded, free),
{
    match recorded {
        Some(r) => if r != UNKNOWN_FREE && r != free {
            Some(Finding::FreeCount { recorded: r, actual: free })
        } else {
            None
        },
        None => None,
    }
}

/// How a cluster chain ends.
#[derive(Debug, Clone, Copy, PartialEq, Eq)]
pub enum End {
    /// At an end-of-chain mark.
    Eoc,
    /// At this cluster, whose entry marks it bad.
    Bad(u32),
    /// At `cluster`, whose entry names `next`, no data cluster.
    Broken { cluster: u32, next: u32 },
    /// At this cluster, whose entry leads back into the chain.
    Cycle(u32),
}

/// The finding on how the chain of `entry` ends.
pub open spec fn spec_chain_end_finding(entry: u64, end: End) -> Option<Finding> {
    match end {
        End::Eoc => None,
        End::Bad(cluster) => Some(Finding::BadCluster { entry, cluster }),
        End::Broken { cluster, next } => Some(Finding::BrokenChain { entry, cluster, next }),
        End::Cycle(cluster) => Some(Finding::CyclicChain { entry, cluster }),
    }
}

/// The finding on how the chain of `entry` ends: none at an end-of-chain
/// mark.
pub fn chain_end_finding(entry: u64, end: End) -> (r: Option<Finding>)
    ensures
        r == spec_chain_end_finding(entry, end),
{
    match end {
        End::Eoc => None,
        End::Bad(cluster) => Some(Finding::BadCluster { entry, cluster }),
        End::Broken { cluster, next } => Some(Finding::BrokenChain { entry, cluster, next }),
        End::Cycle(cluster) => Some(Finding::CyclicChain { entry, cluster }),
    }
}

/// What the checker makes of the first cluster `first` of `entry`, a
/// directory when `is_dir`, of `size` bytes: whether to follow its chain,
/// and the finding it makes. A file with no cluster is fine when empty and
/// too short otherwise; a directory needs a cluster; a cluster outside the
/// data clusters up to `max_cluster`, or the root directory's, is invalid.
pub open spec fn spec_chain_start(
    entry: u64,
    first: u32,
    is_dir: bool,
    size: u32,
    max_cluster: u32,
    root: Option<u32>,
) -> (bool, Option<Finding>) {
    if first == 0 {
        (
            false,
            if is_dir {
                Some(Finding::InvalidCluster { entry, cluster: 0 })
            } else if size > 0 {
                Some(Finding::ChainTooShort { entry, size, clusters: 0 })
            } else {
                None
            },
        )
    } else if first < 2 || first > max_cluster || root == Some(first) {
        (false, Some(Finding::InvalidCluster { entry, cluster: first }))
    } else {
        (true, None)
    }
}

/// Whether to follow the chain an entry starts at `first`, and the finding
/// on that cluster.
pub fn chain_start(
    entry: u64,
    first: u32,
    is_dir: bool,
    size: u32,
    max_cluster: u32,
    root: Option<u32>,
) -> (r: (bool, Option<Finding>))
    ensures
        r == spec_chain_start(entry, first, is_dir, size, max_cluster, root),
{
    if first == 0 {
        let f = if is_dir {
            Some(Finding::InvalidCluster { entry, cluster: 0 })
        } else if size > 0 {
            Some(Finding::ChainTooShort { entry, size, clusters: 0 })
        } else {
            None
        };
        return (false, f);
    }
    let is_root = match root {
        Some(r) => r == first,
        None => false,
    };
    if first < 2 || first > max_cluster || is_root {
        (false, Some(Finding::InvalidCluster { entry, cluster: first }))
    } else {
        (true, None)
    }
}

/// `a / b` rounded up.
pub open spec fn div_ceil(a: int, b: int) -> int {
    (a + b - 1) / b
}

/// The finding on a file of `size` bytes whose chain ends properly after
/// `clusters` clusters of `cluster_size` bytes: too long when it has more
/// clusters than the size needs, too short when fewer.
pub open spec fn spec_chain_length_finding(entry: u64, size: u32, clusters: u32, cluster_size: u32) -> Option<
    Finding,
> {
    let needed = div_ceil(size as int, cluster_size as int);
    if clusters > needed {
        Some(Finding::ChainTooLong { entry, size, clusters })
    } else if clusters < needed {
        Some(Finding::ChainTooShort { entry, size, clusters })
    } else {
        None
    }
}

/// The finding on the length of a file's chain against its size.
pub fn chain_length_finding(entry: u64, size: u32, clusters: u32, cluster_size: u32) -> (r: Option<
    Finding,
>)
    requires
        cluster_size > 0,
    ensures
        r == spec_chain_length_finding(entry, size, clusters, cluster_size),
{
    let q = size / cluster_size;
    let needed: u64 = if size % cluster_size > 0 {
        q as u64 + 1
    } else {
        q as u64
    };
    assert(div_ceil(size as int, cluster_size as int) == needed) by (nonlinear_arith)
        requires
            cluster_size > 0,
            q == size / cluster_size,
            needed == (if size % cluster_size > 0 {
                q + 1
            } else {
                q as int
            }),
    ;
    if clusters as u64 > needed {
        Some(Finding::ChainTooLong { entry, size, clusters })
    } else if (clusters as u64) < needed {
        Some(Finding::ChainTooShort { entry, size, clusters })
    } else {
        None
    }
}

/// A volume label entry at `entry`, in the root directory when `in_root`,
/// where a label was `seen` before: a finding unless it is the root's
/// first, and whether the root now has one.
pub fn label_entry(entry: u64, in_root: bool, seen: bool) -> (r: (Option<Finding>, bool))
    ensures
        r == ((if !in_root || seen {
            Some(Finding::Label { entry })
        } else {
            None
        }), seen || in_root),
{
    let f = if !in_root || seen {
        Some(Finding::Label { entry })
    } else {
        None
    };
    (f, seen || in_root)
}

/// Whether the `..` entry's cluster `up` names the parent directory: the
/// root, named by 0 or by its cluster `root` on FAT32, or the directory at
/// `parent_cluster`.
pub open spec fn spec_names_parent(parent_is_root: bool, parent_cluster: u32, root: Option<u32>, up: u32) -> bool {
    if parent_is_root {
        up == 0 || root == Some(up)
    } else {
        up == parent_cluster
    }
}

/// Whether the `..` entry's cluster `up` names the parent directory.
pub fn names_parent(parent_is_root: bool, parent_cluster: u32, root: Option<u32>, up: u32) -> (b: bool)
    ensures
        b == spec_names_parent(parent_is_root, parent_cluster, root, up),
{
    if parent_is_root {
        up == 0 || match root {
            Some(r) => r == up,
            None => false,
        }
    } else {
        up == parent_cluster
    }
}

/// Whether the first entry of the directory at `cluster` is its `.`: a
/// directory entry named `.` that names the directory itself.
pub fn is_dot_of(name: &[u8; 11], is_dir: bool, first: u32, cluster: u32) -> (b: bool)
    ensures
        b == (name@ == DOT@ && is_dir && first == cluster),
{
    let same = name_is(name, &DOT);
    same && is_dir && first == cluster
}

/// Whether the second entry of a directory is its `..`: a directory entry
/// named `..` whose cluster names the parent.
pub fn is_dot_dot_of(
    name: &[u8; 11],
    is_dir: bool,
    up: u32,
    parent_is_root: bool,
    parent_cluster: u32,
    root: Option<u32>,
) -> (b: bool)
    ensures
        b == (name@ == DOT_DOT@ && is_dir && spec_names_parent(parent_is_root, parent_cluster, root, up)),
{
    let same = name_is(name, &DOT_DOT);
    same && is_dir && names_parent(parent_is_root, parent_cluster, root, up)
}

/// Whether `name` is `other`.
pub fn name_is(name: &[u8; 11], other: &[u8; 11]) -> (b: bool)
    ensures
        b == (name@ == other@),
{
    let mut i: usize = 0;
    while i < 11
        invariant
            i <= 11,
            forall|j: int| 0 <= j < i ==> name@[j] == other@[j],
        decreases 11 - i,
    {
        if name[i] != other[i] {
            return false;
        }
        i += 1;
    }
    assert(name@ =~= other@);
    true
}

/// The finding on the dot entries of a directory whose `.` and `..` are
/// right or not: one when either is wrong.
pub fn dot_entries_finding(entry: u64, dot: bool, dot_dot: bool) -> (r: Option<Finding>)
    ensures
        r == (if !dot || !dot_dot {
            Some(Finding::DotEntry { entry })
        } else {
            None
        }),
{
    if !dot || !dot_dot {
        Some(Finding::DotEntry { entry })
    } else {
        None
    }
}

/// The bit of cluster `i` places past the first of a bitmap: bit `i % 8`
/// of byte `i / 8`.
pub open spec fn claimed_bit(bits: Seq<u8>, i: int) -> bool {
    bits[i / 8] & (1u8 << ((i % 8) as u8)) != 0
}

/// Claims `cluster` for `entry` in the bitmap `bits` of the clusters from
/// `lo` up to `hi`: a cluster outside them is left alone; one already
/// claimed is cross-linked; any other has its bit set.
pub fn claim(bits: &mut [u8], lo: u32, hi: u32, cluster: u32, entry: u64) -> (r: Option<Finding>)
    requires
        lo <= hi,
        hi - lo <= old(bits)@.len() * 8,
    ensures
        final(bits)@.len() == old(bits)@.len(),
        !(lo <= cluster < hi) ==> r is None && final(bits)@ == old(bits)@,
        lo <= cluster < hi ==> {
            let i = cluster - lo;
            if claimed_bit(old(bits)@, i) {
                r == Some(Finding::CrossLinked { entry, cluster }) && final(bits)@ == old(bits)@
            } else {
                r is None && final(bits)@ == old(bits)@.update(
                    i / 8,
                    old(bits)@[i / 8] | (1u8 << ((i % 8) as u8)),
                )
            }
        },
{
    if cluster < lo || cluster >= hi {
        return None;
    }
    let bit = (cluster - lo) as usize;
    let byte = bit / 8;
    let mask: u8 = 1u8 << ((bit % 8) as u8);
    if bits[byte] & mask != 0 {
        Some(Finding::CrossLinked { entry, cluster })
    } else {
        bits[byte] = bits[byte] | mask;
        None
    }
}

/// The entries of a FAT copy that differ from the active FAT, counted from
/// the first that does.
#[derive(Debug, Clone, Copy, PartialEq, Eq)]
pub struct CopyDiff {
    /// The first cluster whose entries differ.
    pub first: u32,
    /// How many entries differ.
    pub entries: u32,
}

impl CopyDiff {
    /// No entry found to differ.
    pub fn new() -> (d: Self)
        ensures
            d == (CopyDiff { first: 0, entries: 0 }),
    {
        CopyDiff { first: 0, entries: 0 }
    }

    /// Compares the entries of `cluster`, `ours` in the active FAT and
    /// `theirs` in the copy, both masked.
    pub fn compare(&mut self, cluster: u32, ours: u32, theirs: u32)
        requires
            old(self).entries < u32::MAX,
        ensures
            *final(self) == (if ours == theirs {
                *old(self)
            } else {
                CopyDiff {
                    first: if old(self).entries == 0 {
                        cluster
                    } else {
                        old(self).first
                    },
                    entries: (old(self).entries + 1) as u32,
                }
            }),
    {
        if ours != theirs {
            if self.entries == 0 {
                self.first = cluster;
            }
            self.entries = self.entries + 1;
        }
    }

    /// The finding on FAT copy `copy`, if any entry differed.
    pub fn finding(&self, copy: u8) -> (r: Option<Finding>)
        ensures
            r == (if self.entries > 0 {
                Some(Finding::FatCopy { copy, first: self.first, entries: self.entries })
            } else {
                None
            }),
    {
        if self.entries > 0 {
            Some(Finding::FatCopy { copy, first: self.first, entries: self.entries })
        } else {
            None
        }
    }
}

/// A cluster claimed once is claimed: claiming it again, for any entry,
/// reports it cross-linked.
pub proof fn lemma_claim_twice(bits: Seq<u8>, i: int)
    requires
        0 <= i,
        i / 8 < bits.len(),
    ensures
        claimed_bit(bits.update(i / 8, bits[i / 8] | (1u8 << ((i % 8) as u8))), i),
{
    let b = bits[i / 8];
    let k = (i % 8) as u8;
    assert(k < 8 ==> (b | (1u8 << k)) & (1u8 << k) != 0) by (bit_vector);
}

} // verus!
