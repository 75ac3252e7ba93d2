//! What the FAT `check` reports: [`Finding`]s one at a time and a
//! [`CheckReport`] of counts at the end.

use vstd::prelude::*;

verus! {

/// One problem `check` found on a volume.
///
/// Locations are byte offsets on the volume. `entry` is the offset of a
/// directory entry: the short entry of a file or directory, or the first
/// slot of a long-name run. The root directory, which has no entry, is
/// named by entry 0, where only the boot sector can be.
///
/// Findings are made only by `check`. Match variants with fields with
/// `..`, so a later release can locate a problem more precisely.
#[derive(Debug, Clone, Copy, PartialEq, Eq)]
#[non_exhaustive]
pub enum Finding {
    /// A boot sector field is inconsistent with the rest of the volume; the
    /// text names it. The volume mounted, so the fields `FatFs` relies on
    /// are sound.
    BootSector(&'static str),
    /// The FAT32 backup boot sector differs from the boot sector.
    BackupBootSector,
    /// FAT entries 0 and 1 do not hold the media byte and an end-of-chain
    /// marker.
    ReservedEntries,
    /// The FAT32 FSInfo sector named by the boot sector has wrong
    /// signatures.
    FsInfo,
    /// The FSInfo free cluster count is neither unknown nor the number of
    /// free clusters in the FAT.
    FreeCount {
        /// The count in the FSInfo sector.
        recorded: u32,
        /// The free clusters in the FAT.
        actual: u32,
    },
    /// A mirrored FAT copy differs from the active copy.
    FatCopy {
        /// The index of the copy.
        copy: u8,
        /// The first cluster whose entry differs; 0 and 1 are the reserved
        /// entries.
        first: u32,
        /// How many entries differ.
        entries: u32,
    },
    /// The entry's first cluster is not a data cluster, is the FAT32 root,
    /// or is missing from a directory.
    InvalidCluster {
        /// The entry.
        entry: u64,
        /// The cluster it names.
        cluster: u32,
    },
    /// The chain links `cluster` to a free, reserved or out-of-range value.
    BrokenChain {
        /// The entry that owns the chain.
        entry: u64,
        /// The last cluster that links correctly.
        cluster: u32,
        /// Its FAT entry.
        next: u32,
    },
    /// The chain runs into a cluster marked bad.
    BadCluster {
        /// The entry that owns the chain.
        entry: u64,
        /// The bad cluster.
        cluster: u32,
    },
    /// The chain links back to one of its own clusters.
    CyclicChain {
        /// The entry that owns the chain.
        entry: u64,
        /// The cluster whose link closes the cycle.
        cluster: u32,
    },
    /// A file's chain has more clusters than its size needs.
    ChainTooLong {
        /// The file's entry.
        entry: u64,
        /// The size in the entry.
        size: u32,
        /// The clusters in the chain.
        clusters: u32,
    },
    /// A file's chain has fewer clusters than its size needs.
    ChainTooShort {
        /// The file's entry.
        entry: u64,
        /// The size in the entry.
        size: u32,
        /// The clusters in the chain.
        clusters: u32,
    },
    /// A cluster is in the chains of more than one entry. Reported once for
    /// each claim after the first.
    CrossLinked {
        /// The entry whose chain claimed the cluster again.
        entry: u64,
        /// The cluster.
        cluster: u32,
    },
    /// Allocated clusters that no chain reaches, `first..first + count`.
    LostClusters {
        /// The first lost cluster of the run.
        first: u32,
        /// The number of consecutive lost clusters.
        count: u32,
    },
    /// A short name holds a byte FAT does not allow.
    BadName {
        /// The entry.
        entry: u64,
    },
    /// A `.` or `..` entry is missing, wrong or out of place. `entry` is the
    /// directory's own entry, or the stray dot entry. A directory whose
    /// `..` does not name its parent is not entered, so what it holds is
    /// reported as lost.
    DotEntry {
        /// The entry.
        entry: u64,
    },
    /// A directory entry records a non-zero size.
    DirectorySize {
        /// The entry.
        entry: u64,
    },
    /// A volume label entry outside the root directory, or a second one in
    /// it.
    Label {
        /// The entry.
        entry: u64,
    },
    /// A complete long-name run whose checksum does not match the short
    /// entry after it.
    LfnChecksum {
        /// The first slot of the run.
        entry: u64,
    },
    /// Long-name fragments that do not form a run ending in a short entry.
    OrphanLfn {
        /// The first fragment.
        entry: u64,
    },
}

/// The kind of a [`Finding`], for counting.
#[derive(Debug, Clone, Copy, PartialEq, Eq, Hash, Structural)]
#[non_exhaustive]
pub enum FindingKind {
    /// [`Finding::BootSector`].
    BootSector,
    /// [`Finding::BackupBootSector`].
    BackupBootSector,
    /// [`Finding::ReservedEntries`].
    ReservedEntries,
    /// [`Finding::FsInfo`].
    FsInfo,
    /// [`Finding::FreeCount`].
    FreeCount,
    /// [`Finding::FatCopy`].
    FatCopy,
    /// [`Finding::InvalidCluster`].
    InvalidCluster,
    /// [`Finding::BrokenChain`].
    BrokenChain,
    /// [`Finding::BadCluster`].
    BadCluster,
    /// [`Finding::CyclicChain`].
    CyclicChain,
    /// [`Finding::ChainTooLong`].
    ChainTooLong,
    /// [`Finding::ChainTooShort`].
    ChainTooShort,
    /// [`Finding::CrossLinked`].
    CrossLinked,
    /// [`Finding::LostClusters`].
    LostClusters,
    /// [`Finding::BadName`].
    BadName,
    /// [`Finding::DotEntry`].
    DotEntry,
    /// [`Finding::DirectorySize`].
    DirectorySize,
    /// [`Finding::Label`].
    Label,
    /// [`Finding::LfnChecksum`].
    LfnChecksum,
    /// [`Finding::OrphanLfn`].
    OrphanLfn,
}

/// How many kinds of finding there are.
pub const KINDS: usize = 20;

impl FindingKind {
    /// The position of this kind among all kinds, in declaration order.
    pub open spec fn spec_index(self) -> int {
        match self {
            FindingKind::BootSector => 0,
            FindingKind::BackupBootSector => 1,
            FindingKind::ReservedEntries => 2,
            FindingKind::FsInfo => 3,
            FindingKind::FreeCount => 4,
            FindingKind::FatCopy => 5,
            FindingKind::InvalidCluster => 6,
            FindingKind::BrokenChain => 7,
            FindingKind::BadCluster => 8,
            FindingKind::CyclicChain => 9,
            FindingKind::ChainTooLong => 10,
            FindingKind::ChainTooShort => 11,
            FindingKind::CrossLinked => 12,
            FindingKind::LostClusters => 13,
            FindingKind::BadName => 14,
            FindingKind::DotEntry => 15,
            FindingKind::DirectorySize => 16,
            FindingKind::Label => 17,
            FindingKind::LfnChecksum => 18,
            FindingKind::OrphanLfn => 19,
        }
    }

    /// The position of this kind among all kinds, in declaration order.
    pub fn index(self) -> (i: usize)
        ensures
            i == self.spec_index(),
            i < KINDS,
    {
        match self {
            FindingKind::BootSector => 0,
            FindingKind::BackupBootSector => 1,
            FindingKind::ReservedEntries => 2,
            FindingKind::FsInfo => 3,
            FindingKind::FreeCount => 4,
            FindingKind::FatCopy => 5,
            FindingKind::InvalidCluster => 6,
            FindingKind::BrokenChain => 7,
            FindingKind::BadCluster => 8,
            FindingKind::CyclicChain => 9,
            FindingKind::ChainTooLong => 10,
            FindingKind::ChainTooShort => 11,
            FindingKind::CrossLinked => 12,
            FindingKind::LostClusters => 13,
            FindingKind::BadName => 14,
            FindingKind::DotEntry => 15,
            FindingKind::DirectorySize => 16,
            FindingKind::Label => 17,
            FindingKind::LfnChecksum => 18,
            FindingKind::OrphanLfn => 19,
        }
    }
}

impl Finding {
    /// The kind of this finding.
    pub open spec fn spec_kind(&self) -> FindingKind {
        match self {
            Finding::BootSector(_) => FindingKind::BootSector,
            Finding::BackupBootSector => FindingKind::BackupBootSector,
            Finding::ReservedEntries => FindingKind::ReservedEntries,
            Finding::FsInfo => FindingKind::FsInfo,
            Finding::FreeCount { .. } => FindingKind::FreeCount,
            Finding::FatCopy { .. } => FindingKind::FatCopy,
            Finding::InvalidCluster { .. } => FindingKind::InvalidCluster,
            Finding::BrokenChain { .. } => FindingKind::BrokenChain,
            Finding::BadCluster { .. } => FindingKind::BadCluster,
            Finding::CyclicChain { .. } => FindingKind::CyclicChain,
            Finding::ChainTooLong { .. } => FindingKind::ChainTooLong,
            Finding::ChainTooShort { .. } => FindingKind::ChainTooShort,
            Finding::CrossLinked { .. } => FindingKind::CrossLinked,
            Finding::LostClusters { .. } => FindingKind::LostClusters,
            Finding::BadName { .. } => FindingKind::BadName,
            Finding::DotEntry { .. } => FindingKind::DotEntry,
            Finding::DirectorySize { .. } => FindingKind::DirectorySize,
            Finding::Label { .. } => FindingKind::Label,
            Finding::LfnChecksum { .. } => FindingKind::LfnChecksum,
            Finding::OrphanLfn { .. } => FindingKind::OrphanLfn,
        }
    }

    /// The kind of this finding.
    pub fn kind(&self) -> (k: FindingKind)
        ensures
            k == self.spec_kind(),
    {
        match self {
            Finding::BootSector(_) => FindingKind::BootSector,
            Finding::BackupBootSector => FindingKind::BackupBootSector,
            Finding::ReservedEntries => FindingKind::ReservedEntries,
            Finding::FsInfo => FindingKind::FsInfo,
            Finding::FreeCount { .. } => FindingKind::FreeCount,
            Finding::FatCopy { .. } => FindingKind::FatCopy,
            Finding::InvalidCluster { .. } => FindingKind::InvalidCluster,
            Finding::BrokenChain { .. } => FindingKind::BrokenChain,
            Finding::BadCluster { .. } => FindingKind::BadCluster,
            Finding::CyclicChain { .. } => FindingKind::CyclicChain,
            Finding::ChainTooLong { .. } => FindingKind::ChainTooLong,
            Finding::ChainTooShort { .. } => FindingKind::ChainTooShort,
            Finding::CrossLinked { .. } => FindingKind::CrossLinked,
            Finding::LostClusters { .. } => FindingKind::LostClusters,
            Finding::BadName { .. } => FindingKind::BadName,
            Finding::DotEntry { .. } => FindingKind::DotEntry,
            Finding::DirectorySize { .. } => FindingKind::DirectorySize,
            Finding::Label { .. } => FindingKind::Label,
            Finding::LfnChecksum { .. } => FindingKind::LfnChecksum,
            Finding::OrphanLfn { .. } => FindingKind::OrphanLfn,
        }
    }
}

/// The sum of the counts in `counts`.
pub open spec fn sum(counts: Seq<u32>) -> int
    decreases counts.len(),
{
    if counts.len() == 0 {
        0
    } else {
        sum(counts.drop_last()) + counts.last()
    }
}

/// `n`, or `u32::MAX` when it does not fit.
pub open spec fn saturate(n: int) -> u32 {
    if n > u32::MAX {
        u32::MAX
    } else {
        n as u32
    }
}

/// A count of zero for every kind.
pub open spec fn zero_counts() -> Seq<u32> {
    Seq::new(KINDS as nat, |i: int| 0u32)
}

/// `counts` after counting each of `findings` in turn, saturating.
pub open spec fn counted(counts: Seq<u32>, findings: Seq<Finding>) -> Seq<u32>
    decreases findings.len(),
{
    if findings.len() == 0 {
        counts
    } else {
        let before = counted(counts, findings.drop_last());
        let i = findings.last().spec_kind().spec_index();
        before.update(i, saturate(before[i] + 1))
    }
}

/// How many of `findings` are of `kind`.
pub open spec fn count_of(findings: Seq<Finding>, kind: FindingKind) -> int
    decreases findings.len(),
{
    if findings.len() == 0 {
        0
    } else {
        count_of(findings.drop_last(), kind) + if findings.last().spec_kind() == kind {
            1int
        } else {
            0
        }
    }
}

/// Whether `a` and `b` are the same variant, whatever their fields.
pub open spec fn same_variant(a: Finding, b: Finding) -> bool {
    ||| a is BootSector && b is BootSector
    ||| a is BackupBootSector && b is BackupBootSector
    ||| a is ReservedEntries && b is ReservedEntries
    ||| a is FsInfo && b is FsInfo
    ||| a is FreeCount && b is FreeCount
    ||| a is FatCopy && b is FatCopy
    ||| a is InvalidCluster && b is InvalidCluster
    ||| a is BrokenChain && b is BrokenChain
    ||| a is BadCluster && b is BadCluster
    ||| a is CyclicChain && b is CyclicChain
    ||| a is ChainTooLong && b is ChainTooLong
    ||| a is ChainTooShort && b is ChainTooShort
    ||| a is CrossLinked && b is CrossLinked
    ||| a is LostClusters && b is LostClusters
    ||| a is BadName && b is BadName
    ||| a is DotEntry && b is DotEntry
    ||| a is DirectorySize && b is DirectorySize
    ||| a is Label && b is Label
    ||| a is LfnChecksum && b is LfnChecksum
    ||| a is OrphanLfn && b is OrphanLfn
}

/// The kind at position `i`, for `0 <= i < KINDS`.
spec fn kind_at(i: int) -> FindingKind {
    if i == 0 {
        FindingKind::BootSector
    } else if i == 1 {
        FindingKind::BackupBootSector
    } else if i == 2 {
        FindingKind::ReservedEntries
    } else if i == 3 {
        FindingKind::FsInfo
    } else if i == 4 {
        FindingKind::FreeCount
    } else if i == 5 {
        FindingKind::FatCopy
    } else if i == 6 {
        FindingKind::InvalidCluster
    } else if i == 7 {
        FindingKind::BrokenChain
    } else if i == 8 {
        FindingKind::BadCluster
    } else if i == 9 {
        FindingKind::CyclicChain
    } else if i == 10 {
        FindingKind::ChainTooLong
    } else if i == 11 {
        FindingKind::ChainTooShort
    } else if i == 12 {
        FindingKind::CrossLinked
    } else if i == 13 {
        FindingKind::LostClusters
    } else if i == 14 {
        FindingKind::BadName
    } else if i == 15 {
        FindingKind::DotEntry
    } else if i == 16 {
        FindingKind::DirectorySize
    } else if i == 17 {
        FindingKind::Label
    } else if i == 18 {
        FindingKind::LfnChecksum
    } else {
        FindingKind::OrphanLfn
    }
}

/// What a report holds: the count of each kind, by
/// [`FindingKind::index`], and the totals of the run.
pub struct ReportView {
    /// Findings of each kind.
    pub counts: Seq<u32>,
    /// Files reached from the root.
    pub files: u32,
    /// Directories reached from the root, the root included.
    pub directories: u32,
    /// Clusters in use.
    pub used: u32,
    /// Free clusters.
    pub free: u32,
    /// Bad clusters.
    pub bad: u32,
    /// Lost clusters.
    pub lost: u32,
    /// Walks of the directory tree.
    pub passes: u32,
}

/// The totals of a `check` run.
#[derive(Debug, Clone, PartialEq, Eq)]
pub struct CheckReport {
    counts: [u32; KINDS],
    files: u32,
    directories: u32,
    used: u32,
    free: u32,
    bad: u32,
    lost: u32,
    passes: u32,
}

impl View for CheckReport {
    type V = ReportView;

    closed spec fn view(&self) -> ReportView {
        ReportView {
            counts: self.counts@,
            files: self.files,
            directories: self.directories,
            used: self.used,
            free: self.free,
            bad: self.bad,
            lost: self.lost,
            passes: self.passes,
        }
    }
}

impl CheckReport {
    /// A report of nothing found, with every total zero.
    pub fn new() -> (r: Self)
        ensures
            r@ == (ReportView {
                counts: zero_counts(),
                files: 0,
                directories: 0,
                used: 0,
                free: 0,
                bad: 0,
                lost: 0,
                passes: 0,
            }),
    {
        let r = CheckReport {
            counts: [0; KINDS],
            files: 0,
            directories: 0,
            used: 0,
            free: 0,
            bad: 0,
            lost: 0,
            passes: 0,
        };
        assert(r.counts@ =~= zero_counts());
        r
    }

    /// Counts `finding`, saturating at `u32::MAX`.
    pub fn record(&mut self, finding: &Finding)
        ensures
            ({
                let i = finding.spec_kind().spec_index();
                final(self)@ == (ReportView {
                    counts: old(self)@.counts.update(i, saturate(old(self)@.counts[i] + 1)),
                    ..old(self)@
                })
            }),
            final(self)@.counts == counted(old(self)@.counts, seq![*finding]),
    {
        assert(seq![*finding].drop_last() =~= Seq::<Finding>::empty());
        let i = finding.kind().index();
        let c = self.counts[i];
        self.counts[i] = if c == u32::MAX {
            u32::MAX
        } else {
            c + 1
        };        assert(seq![*finding].last() == *finding);
        assert(counted(old(self)@.counts, Seq::<Finding>::empty()) == old(self)@.counts);
    }

    /// Counts one more free cluster.
    pub(crate) fn count_free(&mut self)
        requires
            old(self)@.free < u32::MAX,
        ensures
            final(self)@ == (ReportView { free: (old(self)@.free + 1) as u32, ..old(self)@ }),
    {
        self.free = self.free + 1;
    }

    /// Counts one more cluster in use.
    pub(crate) fn count_used(&mut self)
        requires
            old(self)@.used < u32::MAX,
        ensures
            final(self)@ == (ReportView { used: (old(self)@.used + 1) as u32, ..old(self)@ }),
    {
        self.used = self.used + 1;
    }

    /// Counts one more bad cluster.
    pub(crate) fn count_bad(&mut self)
        requires
            old(self)@.bad < u32::MAX,
        ensures
            final(self)@ == (ReportView { bad: (old(self)@.bad + 1) as u32, ..old(self)@ }),
    {
        self.bad = self.bad + 1;
    }

    /// Counts one more lost cluster.
    pub(crate) fn count_lost(&mut self)
        requires
            old(self)@.lost < u32::MAX,
        ensures
            final(self)@ == (ReportView { lost: (old(self)@.lost + 1) as u32, ..old(self)@ }),
    {
        self.lost = self.lost + 1;
    }

    /// Whether nothing was found.
    pub fn is_clean(&self) -> (b: bool)
        ensures
            b == (sum(self@.counts) == 0),
    {
        proof {
            lemma_sum_nonneg(self.counts@);
        }
        self.findings() == 0
    }

    /// The number of findings, saturating at `u32::MAX`.
    pub fn findings(&self) -> (n: u32)
        ensures
            n == saturate(sum(self@.counts)),
    {
        let mut total: u32 = 0;
        let mut i: usize = 0;
        while i < KINDS
            invariant
                0 <= i <= KINDS,
                total == saturate(sum(self.counts@.take(i as int))),
            decreases KINDS - i,
        {
            proof {
                assert(self.counts@.take(i + 1).drop_last() =~= self.counts@.take(i as int));
                lemma_sum_nonneg(self.counts@.take(i as int));
            }
            let c = self.counts[i];
            total = if total > u32::MAX - c {
                u32::MAX
            } else {
                total + c
            };
            i += 1;
        }
        assert(self.counts@.take(KINDS as int) =~= self.counts@);
        total
    }

    /// The number of findings of `kind`.
    pub fn count(&self, kind: FindingKind) -> (n: u32)
        ensures
            n == self@.counts[kind.spec_index()],
    {
        self.counts[kind.index()]
    }

    /// Files reached from the root.
    pub fn files(&self) -> (n: u32)
        ensures
            n == self@.files,
    {
        self.files
    }

    /// Directories reached from the root, the root included.
    pub fn directories(&self) -> (n: u32)
        ensures
            n == self@.directories,
    {
        self.directories
    }

    /// Clusters the FAT marks as in use, lost ones included.
    pub fn used_clusters(&self) -> (n: u32)
        ensures
            n == self@.used,
    {
        self.used
    }

    /// Clusters the FAT marks as free.
    pub fn free_clusters(&self) -> (n: u32)
        ensures
            n == self@.free,
    {
        self.free
    }

    /// Clusters the FAT marks as bad.
    pub fn bad_clusters(&self) -> (n: u32)
        ensures
            n == self@.bad,
    {
        self.bad
    }

    /// Clusters in use that no chain reaches.
    pub fn lost_clusters(&self) -> (n: u32)
        ensures
            n == self@.lost,
    {
        self.lost
    }

    /// How many times the directory tree was walked: once for each
    /// bitmap's worth of clusters.
    pub fn passes(&self) -> (n: u32)
        ensures
            n == self@.passes,
    {
        self.passes
    }
}

/// A report holds a count for every kind.
pub proof fn lemma_counts_len(r: &CheckReport)
    ensures
        r@.counts.len() == KINDS,
{
}

/// A sum of counts is never negative.
pub proof fn lemma_sum_nonneg(counts: Seq<u32>)
    ensures
        sum(counts) >= 0,
    decreases counts.len(),
{
    if counts.len() > 0 {
        lemma_sum_nonneg(counts.drop_last());
    }
}

/// A sum of counts is zero exactly when every count is.
proof fn lemma_sum_zero(counts: Seq<u32>)
    ensures
        (sum(counts) == 0) <==> (forall|i: int| 0 <= i < counts.len() ==> counts[i] == 0),
    decreases counts.len(),
{
    if counts.len() > 0 {
        let rest = counts.drop_last();
        lemma_sum_zero(rest);
        lemma_sum_nonneg(rest);
        if sum(counts) == 0 {
            assert forall|i: int| 0 <= i < counts.len() implies counts[i] == 0 by {
                if i < rest.len() {
                    assert(rest[i] == counts[i]);
                }
            }
        }
        if forall|i: int| 0 <= i < counts.len() ==> counts[i] == 0 {
            assert forall|i: int| 0 <= i < rest.len() implies rest[i] == 0 by {
                assert(rest[i] == counts[i]);
            }
            assert(counts[counts.len() - 1] == 0);
        }
    }
}

/// Changing one count to `v` changes the sum by the difference.
proof fn lemma_sum_update(counts: Seq<u32>, i: int, v: u32)
    requires
        0 <= i < counts.len(),
    ensures
        sum(counts.update(i, v)) == sum(counts) - counts[i] + v,
    decreases counts.len(),
{
    let rest = counts.drop_last();
    if i == counts.len() - 1 {
        assert(counts.update(i, v).drop_last() =~= rest);
    } else {
        lemma_sum_update(rest, i, v);
        assert(counts.update(i, v).drop_last() =~= rest.update(i, v));
    }
}

/// Every position below [`KINDS`] is the position of a kind, and kinds at
/// the same position are the same.
proof fn lemma_kind_positions()
    ensures
        forall|i: int| 0 <= i < KINDS ==> #[trigger] kind_at(i).spec_index() == i,
        forall|k: FindingKind| 0 <= #[trigger] k.spec_index() < KINDS,
        forall|a: FindingKind, b: FindingKind|
            #[trigger] a.spec_index() == #[trigger] b.spec_index() ==> a == b,
{
}

/// A report is clean exactly when its total of findings is zero, and
/// exactly when its count of every kind is zero.
pub proof fn lemma_clean_iff_nothing_counted(r: &CheckReport)
    ensures
        (sum(r@.counts) == 0) <==> (saturate(sum(r@.counts)) == 0),
        (sum(r@.counts) == 0) <==> (forall|k: FindingKind| #[trigger] r@.counts[k.spec_index()] == 0),
{
    let counts = r@.counts;
    lemma_sum_nonneg(counts);
    lemma_sum_zero(counts);
    lemma_kind_positions();
    if forall|k: FindingKind| #[trigger] counts[k.spec_index()] == 0 {
        assert forall|i: int| 0 <= i < counts.len() implies counts[i] == 0 by {
            assert(counts[kind_at(i).spec_index()] == 0);
        }
    }
}

/// Recording `findings` in turn in a new report counts each kind as many
/// times as it occurs among them, saturating at `u32::MAX`; when there
/// are no more than `u32::MAX` of them, the counts add up to their number.
pub proof fn lemma_recorded_counts(findings: Seq<Finding>)
    ensures
        counted(zero_counts(), findings).len() == KINDS,
        forall|k: FindingKind|
            #[trigger] counted(zero_counts(), findings)[k.spec_index()] == saturate(
                count_of(findings, k),
            ),
        findings.len() <= u32::MAX ==> sum(counted(zero_counts(), findings)) == findings.len(),
        findings.len() <= u32::MAX ==> saturate(sum(counted(zero_counts(), findings)))
            == findings.len(),
    decreases findings.len(),
{
    lemma_kind_positions();
    lemma_count_of_bounds(findings);
    if findings.len() == 0 {
        assert(zero_counts().len() == KINDS);
        lemma_sum_zero(zero_counts());
    } else {
        let pre = findings.drop_last();
        let f = findings.last();
        let i = f.spec_kind().spec_index();
        let before = counted(zero_counts(), pre);
        lemma_recorded_counts(pre);
        lemma_count_of_bounds(pre);
        assert forall|k: FindingKind|
            #[trigger] counted(zero_counts(), findings)[k.spec_index()] == saturate(
                count_of(findings, k),
            ) by {
            assert(before[k.spec_index()] == saturate(count_of(pre, k)));
        }
        if findings.len() <= u32::MAX {
            assert(before[i] == count_of(pre, f.spec_kind()));
            lemma_sum_update(before, i, saturate(before[i] + 1));
        }
    }
}

/// How many of `findings` are of a kind is at least zero and at most
/// their number.
proof fn lemma_count_of_bounds(findings: Seq<Finding>)
    ensures
        forall|k: FindingKind|
            0 <= #[trigger] count_of(findings, k) <= findings.len(),
    decreases findings.len(),
{
    if findings.len() > 0 {
        lemma_count_of_bounds(findings.drop_last());
        assert forall|k: FindingKind| 0 <= #[trigger] count_of(findings, k) <= findings.len() by {
            assert(0 <= count_of(findings.drop_last(), k) <= findings.drop_last().len());
        }
    }
}

/// A finding's kind names its variant: two findings are of the same kind
/// exactly when they are the same variant, whatever their fields.
pub proof fn lemma_kind_names_variant(a: Finding, b: Finding)
    ensures
        (a.spec_kind() == b.spec_kind()) <==> same_variant(a, b),
{
}

/// Counting one list of findings and then another is counting both in
/// turn.
pub proof fn lemma_counted_concat(counts: Seq<u32>, a: Seq<Finding>, b: Seq<Finding>)
    ensures
        counted(counts, a + b) == counted(counted(counts, a), b),
    decreases b.len(),
{
    if b.len() == 0 {
        assert(a + b =~= a);
    } else {
        lemma_counted_concat(counts, a, b.drop_last());
        assert((a + b).drop_last() =~= a + b.drop_last());
        assert((a + b).last() == b.last());
    }
}

/// A report that has recorded `findings` in turn since it was made by
/// [`CheckReport::new`] counts each kind as many times as it occurs among
/// them, saturating, and, when there are no more than `u32::MAX` of them,
/// has a total of their number: [`CheckReport::findings`] gives it and
/// [`CheckReport::count`] gives each kind's share.
pub proof fn lemma_report_after_records(r: &CheckReport, findings: Seq<Finding>)
    requires
        r@.counts == counted(zero_counts(), findings),
    ensures
        forall|k: FindingKind|
            #[trigger] r@.counts[k.spec_index()] == saturate(count_of(findings, k)),
        findings.len() <= u32::MAX ==> sum(r@.counts) == findings.len(),
        findings.len() <= u32::MAX ==> saturate(sum(r@.counts)) == findings.len(),
        findings.len() <= u32::MAX ==> forall|k: FindingKind|
            #[trigger] r@.counts[k.spec_index()] == count_of(findings, k),
{
    lemma_recorded_counts(findings);
    lemma_count_of_bounds(findings);
}

} // verus!
