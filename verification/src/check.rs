//! Rules the checker holds directory entries to.

use vstd::prelude::*;
use crate::findings::{counted, CheckReport, Finding, ReportView};
use crate::kind::FatKind;
use crate::lfn::{checksum, spec_checksum, LAST_ENTRY, MAX_ENTRIES, MAX_UNITS, SEQUENCE_MASK};

verus! {

/// Whether `b` may not stand in a stored short name besides control
/// characters and lowercase letters: one of `"*+,./:;<=>?[\]|` or DEL.
pub open spec fn bad_name_byte(b: u8) -> bool {
    ||| b == 0x22
    ||| b == 0x2A
    ||| b == 0x2B
    ||| b == 0x2C
    ||| b == 0x2E
    ||| b == 0x2F
    ||| b == 0x3A
    ||| b == 0x3B
    ||| b == 0x3C
    ||| b == 0x3D
    ||| b == 0x3E
    ||| b == 0x3F
    ||| b == 0x5B
    ||| b == 0x5C
    ||| b == 0x5D
    ||| b == 0x7C
    ||| b == 0x7F
}

/// Whether byte `i` of a stored short name is not allowed there: a
/// control character, but for the `0x05` that stands for a leading
/// `0xE5`, a lowercase letter, or a byte of [`bad_name_byte`].
pub open spec fn bad_name_at(name: Seq<u8>, i: int) -> bool {
    let b = name[i];
    ||| (b < 0x20 && !(i == 0 && b == 0x05))
    ||| 0x61 <= b <= 0x7A
    ||| bad_name_byte(b)
}

/// Whether the stored short name `name` is malformed: it starts with a
/// space or holds a byte not allowed where it stands.
pub open spec fn spec_bad_name(name: Seq<u8>) -> bool {
    name[0] == 0x20 || exists|i: int| 0 <= i < 11 && #[trigger] bad_name_at(name, i)
}

/// Whether the stored short name `name` is malformed.
pub fn bad_name(name: &[u8; 11]) -> (r: bool)
    ensures
        r == spec_bad_name(name@),
{
    if name[0] == 0x20 {
        return true;
    }
    let mut i: usize = 0;
    while i < 11
        invariant
            i <= 11,
            forall|j: int| 0 <= j < i ==> !bad_name_at(name@, j),
        decreases 11 - i,
    {
        let b = name[i];
        if (b < 0x20 && !(i == 0 && b == 0x05)) || (0x61 <= b && b <= 0x7A) || b == 0x22 || b == 0x2A
            || b == 0x2B || b == 0x2C || b == 0x2E || b == 0x2F || b == 0x3A || b == 0x3B || b
            == 0x3C || b == 0x3D || b == 0x3E || b == 0x3F || b == 0x5B || b == 0x5C || b == 0x5D
            || b == 0x7C || b == 0x7F {
            assert(bad_name_at(name@, i as int));
            return true;
        }
        i += 1;
    }
    false
}

/// A long-name run being read while a directory is checked: whether one
/// is pending, where it started, the sequence number the next fragment
/// must carry (0 once complete), its checksum, the code units so far, and
/// whether the fragments since the last reported orphan belong to it.
#[derive(Debug, Clone, Copy, PartialEq, Eq)]
pub struct Run {
    /// A run is pending.
    pub pending: bool,
    /// Byte offset of its first fragment.
    pub start: u64,
    /// The sequence number the next fragment must carry; 0 once complete.
    pub expect: u8,
    /// The checksum every fragment carries.
    pub checksum: u8,
    /// Code units of the name so far.
    pub units: usize,
    /// Fragments since the last reported orphan belong to it.
    pub orphan: bool,
}

/// No run.
pub open spec fn no_run() -> Run {
    Run { pending: false, start: 0, expect: 0, checksum: 0, units: 0, orphan: false }
}

/// `finding` when the pass reports it, nothing otherwise: what every pass
/// would find is reported in the first only.
pub open spec fn once(first_pass: bool, finding: Finding) -> Seq<Finding> {
    if first_pass {
        seq![finding]
    } else {
        Seq::empty()
    }
}

/// Takes an orphan fragment at `entry`: reported unless the fragments
/// since the last report are already.
pub open spec fn spec_orphan(run: Run, first_pass: bool, entry: u64) -> (Run, Seq<Finding>) {
    if !run.orphan {
        (Run { orphan: true, ..run }, once(first_pass, Finding::OrphanLfn { entry }))
    } else {
        (run, Seq::empty())
    }
}

/// Abandons a pending run as an orphan.
pub open spec fn spec_abandon(run: Run, first_pass: bool) -> (Run, Seq<Finding>) {
    if run.pending {
        spec_orphan(Run { pending: false, orphan: false, ..run }, first_pass, run.start)
    } else {
        (run, Seq::empty())
    }
}

/// Takes one long-name fragment at `offset` with `sequence`, `checksum`
/// and `units` code units: a last fragment starts a run, abandoning the
/// one pending; the next fragment of the pending run continues it; any
/// other abandons it or is an orphan.
pub open spec fn spec_fragment(
    run: Run,
    first_pass: bool,
    offset: u64,
    sequence: u8,
    checksum: u8,
    units: usize,
) -> (Run, Seq<Finding>) {
    if sequence & LAST_ENTRY != 0 {
        let (left, found) = spec_abandon(run, first_pass);
        let count = sequence & SEQUENCE_MASK;
        if count == 0 || count > MAX_ENTRIES {
            let (next, more) = spec_orphan(Run { orphan: false, ..left }, first_pass, offset);
            (next, found + more)
        } else {
            (
                Run {
                    pending: true,
                    start: offset,
                    expect: (count - 1) as u8,
                    checksum,
                    units,
                    orphan: false,
                },
                found,
            )
        }
    } else if run.pending && run.expect != 0 && sequence == run.expect && checksum == run.checksum
        && run.units + units <= MAX_UNITS {
        (Run { expect: (run.expect - 1) as u8, units: (run.units + units) as usize, ..run }, Seq::empty())
    } else if run.pending {
        spec_abandon(run, first_pass)
    } else {
        spec_orphan(run, first_pass, offset)
    }
}

/// Ends the run at a short entry whose name has the long-name checksum
/// `name_sum`: an incomplete run is an orphan, a complete one with
/// another checksum a mismatch.
pub open spec fn spec_close(run: Run, first_pass: bool, name_sum: u8) -> (Run, Seq<Finding>) {
    (
        no_run(),
        if run.pending && run.expect != 0 {
            once(first_pass, Finding::OrphanLfn { entry: run.start })
        } else if run.pending && run.checksum != name_sum {
            once(first_pass, Finding::LfnChecksum { entry: run.start })
        } else {
            Seq::empty()
        },
    )
}

impl Run {
    /// No run.
    pub fn new() -> (r: Self)
        ensures
            r == no_run(),
    {
        Run { pending: false, start: 0, expect: 0, checksum: 0, units: 0, orphan: false }
    }

    /// Takes an orphan fragment at `entry`, appending what is reported to
    /// `found`.
    fn orphan(&mut self, first_pass: bool, entry: u64, found: &mut Vec<Finding>)
        ensures
            ({
                let (next, more) = spec_orphan(*old(self), first_pass, entry);
                *final(self) == next && final(found)@ == old(found)@ + more
            }),
    {
        if !self.orphan {
            if first_pass {
                found.push(Finding::OrphanLfn { entry });
            }
            self.orphan = true;
        }
        proof {
            if !old(self).orphan && first_pass {
                assert(found@ =~= old(found)@ + seq![Finding::OrphanLfn { entry }]);
            } else {
                assert(found@ =~= old(found)@ + Seq::<Finding>::empty());
            }
        }
    }

    /// Abandons a pending run as an orphan.
    fn abandon(&mut self, first_pass: bool, found: &mut Vec<Finding>)
        ensures
            ({
                let (next, more) = spec_abandon(*old(self), first_pass);
                *final(self) == next && final(found)@ == old(found)@ + more
            }),
    {
        if self.pending {
            self.pending = false;
            self.orphan = false;
            let start = self.start;
            self.orphan(first_pass, start, found);
        } else {
            assert(found@ =~= old(found)@ + Seq::<Finding>::empty());
        }
    }

    /// Takes one long-name fragment at `offset` holding `units` code
    /// units, appending what is reported to `found`.
    pub fn fragment(
        &mut self,
        first_pass: bool,
        offset: u64,
        sequence: u8,
        checksum: u8,
        units: usize,
        found: &mut Vec<Finding>,
    )
        requires
            old(self).units <= MAX_UNITS,
        ensures
            ({
                let (next, more) = spec_fragment(*old(self), first_pass, offset, sequence, checksum, units);
                *final(self) == next && final(found)@ == old(found)@ + more
            }),
            final(self).units <= MAX_UNITS || sequence & LAST_ENTRY != 0,
    {
        if sequence & LAST_ENTRY != 0 {
            let ghost before = found@;
            self.abandon(first_pass, found);
            let ghost mid = found@;
            let count = sequence & SEQUENCE_MASK;
            if count == 0 || count as usize > MAX_ENTRIES {
                self.orphan = false;
                self.orphan(first_pass, offset, found);
                assert(found@ =~= before + (mid.skip(before.len() as int) + found@.skip(mid.len() as int)));
            } else {
                *self = Run {
                    pending: true,
                    start: offset,
                    expect: count - 1,
                    checksum,
                    units,
                    orphan: false,
                };
            }
        } else if self.pending && self.expect != 0 && sequence == self.expect && checksum
            == self.checksum && units <= MAX_UNITS - self.units {
            self.expect = self.expect - 1;
            self.units = self.units + units;
            assert(found@ =~= old(found)@ + Seq::<Finding>::empty());
        } else if self.pending {
            self.abandon(first_pass, found);
        } else {
            self.orphan(first_pass, offset, found);
        }
    }

    /// Ends the run at a short entry named `name`, appending what is
    /// reported to `found`.
    pub fn close_run(&mut self, first_pass: bool, name: &[u8; 11], found: &mut Vec<Finding>)
        ensures
            ({
                let (next, more) = spec_close(*old(self), first_pass, spec_checksum(name@));
                *final(self) == next && final(found)@ == old(found)@ + more
            }),
    {
        if self.pending {
            if self.expect != 0 {
                if first_pass {
                    found.push(Finding::OrphanLfn { entry: self.start });
                }
            } else if self.checksum != checksum(name) {
                if first_pass {
                    found.push(Finding::LfnChecksum { entry: self.start });
                }
            }
        }
        proof {
            let more = spec_close(*old(self), first_pass, spec_checksum(name@)).1;
            assert(found@ =~= old(found)@ + more);
        }
        *self = Run::new();
    }

    /// Ends the run at a free slot or the end of a directory.
    pub fn break_run(&mut self, first_pass: bool, found: &mut Vec<Finding>)
        ensures
            *final(self) == no_run(),
            final(found)@ == old(found)@ + spec_abandon(*old(self), first_pass).1,
    {
        self.abandon(first_pass, found);
        *self = Run::new();
    }
}

/// Takes the fragments `frags`, each an offset, a sequence number, a
/// checksum and a count of code units, one after the other.
pub open spec fn spec_feed(run: Run, first_pass: bool, frags: Seq<(u64, u8, u8, usize)>) -> (
    Run,
    Seq<Finding>,
)
    decreases frags.len(),
{
    if frags.len() == 0 {
        (run, Seq::empty())
    } else {
        let (before, found) = spec_feed(run, first_pass, frags.drop_last());
        let (offset, sequence, checksum, units) = frags.last();
        let (after, more) = spec_fragment(before, first_pass, offset, sequence, checksum, units);
        (after, found + more)
    }
}

/// The sum of `counts`.
pub open spec fn total(counts: Seq<usize>) -> int
    decreases counts.len(),
{
    if counts.len() == 0 {
        0
    } else {
        total(counts.drop_last()) + counts.last()
    }
}

/// The fragments of a long name of `n` entries in the order they are
/// stored: the last entry first, flagged, then `n - 1` down to 1, each at
/// its offset, all with `checksum`, holding `units` code units each.
pub open spec fn name_run(offsets: Seq<u64>, n: int, checksum: u8, units: Seq<usize>) -> Seq<
    (u64, u8, u8, usize),
> {
    Seq::new(
        n as nat,
        |k: int|
            (offsets[k], if k == 0 {
                (LAST_ENTRY | n as u8) as u8
            } else {
                (n - k) as u8
            }, checksum, units[k]),
    )
}

/// Prefix sums of counts are at most the whole sum.
proof fn lemma_total_prefix(counts: Seq<usize>, k: int)
    requires
        0 <= k <= counts.len(),
    ensures
        total(counts.take(k)) <= total(counts),
        total(counts.take(k)) >= 0,
    decreases counts.len(),
{
    if k == counts.len() {
        assert(counts.take(k) =~= counts);
        if counts.len() > 0 {
            lemma_total_prefix(counts.drop_last(), counts.len() - 1);
            assert(counts.drop_last().take(counts.len() - 1) =~= counts.drop_last());
        }
    } else {
        lemma_total_prefix(counts.drop_last(), k);
        assert(counts.drop_last().take(k) =~= counts.take(k));
    }
}

/// After the first `k` fragments of a well-formed name, the run is
/// pending from the first fragment, expects `n - k`, has their units and
/// reports nothing.
proof fn lemma_feed_prefix(
    first_pass: bool,
    offsets: Seq<u64>,
    n: int,
    checksum: u8,
    units: Seq<usize>,
    k: int,
)
    requires
        1 <= n <= MAX_ENTRIES,
        offsets.len() == n,
        units.len() == n,
        total(units) <= MAX_UNITS,
        1 <= k <= n,
    ensures
        spec_feed(no_run(), first_pass, name_run(offsets, n, checksum, units).take(k)) == (
            Run {
                pending: true,
                start: offsets[0],
                expect: (n - k) as u8,
                checksum,
                units: total(units.take(k)) as usize,
                orphan: false,
            },
            Seq::<Finding>::empty(),
        ),
    decreases k,
{
    let frags = name_run(offsets, n, checksum, units);
    lemma_total_prefix(units, k);
    if k == 1 {
        let f = frags.take(1);
        assert(f.drop_last() =~= Seq::<(u64, u8, u8, usize)>::empty());
        let nn = n as u8;
        assert((LAST_ENTRY | nn) & LAST_ENTRY != 0 && (LAST_ENTRY | nn) & SEQUENCE_MASK == nn) by (bit_vector)
            requires
                1 <= nn <= 20,
        ;
        assert(units.take(1).drop_last() =~= Seq::<usize>::empty());
        assert(total(Seq::<usize>::empty()) == 0);
        assert(units.take(1).last() == units[0]);
        assert(total(units.take(1)) == units[0]);
        assert(spec_feed(no_run(), first_pass, f.drop_last()) == (no_run(), Seq::<Finding>::empty()));
        assert(f.last() == frags[0]);
        assert(Seq::<Finding>::empty() + Seq::<Finding>::empty() =~= Seq::<Finding>::empty());
    } else {
        lemma_feed_prefix(first_pass, offsets, n, checksum, units, k - 1);
        assert(frags.take(k).drop_last() =~= frags.take(k - 1));
        let s = (n - (k - 1)) as u8;
        assert(s & LAST_ENTRY == 0) by (bit_vector)
            requires
                1 <= s <= 20,
        ;
        assert(units.take(k).drop_last() =~= units.take(k - 1));
        lemma_total_prefix(units, k - 1);
        assert(total(units.take(k)) == total(units.take(k - 1)) + units[k - 1]);
        assert(frags.take(k).last() == frags[k - 1]);
        assert(Seq::<Finding>::empty() + Seq::<Finding>::empty() =~= Seq::<Finding>::empty());
    }
}

/// A complete long name whose fragments are stored in order, followed by
/// the short entry whose checksum they carry, is reported as nothing, and
/// leaves no run behind.
pub proof fn lemma_complete_run_is_clean(
    first_pass: bool,
    offsets: Seq<u64>,
    n: int,
    units: Seq<usize>,
    name: Seq<u8>,
)
    requires
        1 <= n <= MAX_ENTRIES,
        offsets.len() == n,
        units.len() == n,
        total(units) <= MAX_UNITS,
    ensures
        ({
            let (run, found) = spec_feed(
                no_run(),
                first_pass,
                name_run(offsets, n, spec_checksum(name), units),
            );
            &&& found == Seq::<Finding>::empty()
            &&& spec_close(run, first_pass, spec_checksum(name)) == (no_run(), Seq::<Finding>::empty())
        }),
{
    let frags = name_run(offsets, n, spec_checksum(name), units);
    lemma_feed_prefix(first_pass, offsets, n, spec_checksum(name), units, n);
    assert(frags.take(n) =~= frags);
}

/// The clusters that `findings` report in runs of lost clusters.
pub open spec fn lost_in(findings: Seq<Finding>) -> int
    decreases findings.len(),
{
    if findings.len() == 0 {
        0
    } else {
        lost_in(findings.drop_last()) + match findings.last() {
            Finding::LostClusters { count, .. } => count as int,
            _ => 0,
        }
    }
}

/// The run of clusters in use that no chain claims, seen by the scan of
/// the FAT but not reported yet: its first cluster and its length.
#[derive(Debug, Clone, Copy, PartialEq, Eq)]
pub struct LostRun {
    /// The first cluster.
    pub first: u32,
    /// How many clusters; 0 for no run.
    pub count: u32,
}

/// Reports the run, if there is one.
pub open spec fn spec_flush(run: LostRun) -> (LostRun, Seq<Finding>) {
    if run.count > 0 {
        (LostRun { first: 0, count: 0 }, seq![Finding::LostClusters { first: run.first, count: run.count }])
    } else {
        (run, Seq::empty())
    }
}

/// Whether the entry value `value` of a FAT of `kind` is free, bad, or in
/// use: 0, the bad-cluster mark, or anything else.
pub open spec fn in_use(kind: FatKind, value: u32) -> bool {
    value != 0 && value != kind.spec_bad_cluster()
}

/// What the scan does at `cluster`, whose FAT entry holds `value` and
/// which a chain `claimed`: a cluster in use that no chain claims extends
/// or starts the run; any other ends it.
pub open spec fn spec_scan(run: LostRun, kind: FatKind, cluster: u32, value: u32, claimed: bool) -> (
    LostRun,
    Seq<Finding>,
) {
    if in_use(kind, value) && !claimed {
        if run.count > 0 && run.first + run.count == cluster {
            (LostRun { first: run.first, count: (run.count + 1) as u32 }, Seq::empty())
        } else {
            let (left, found) = spec_flush(run);
            (LostRun { first: cluster, count: 1 }, found)
        }
    } else {
        spec_flush(run)
    }
}

impl LostRun {
    /// No run.
    pub fn new() -> (r: Self)
        ensures
            r == (LostRun { first: 0, count: 0 }),
    {
        LostRun { first: 0, count: 0 }
    }

    /// Reports the run, if there is one, in `report` and `found`.
    pub fn flush_lost(&mut self, report: &mut CheckReport, found: &mut Vec<Finding>)
        ensures
            ({
                let (next, more) = spec_flush(*old(self));
                &&& *final(self) == next
                &&& final(found)@ == old(found)@ + more
                &&& final(report)@.counts == counted(old(report)@.counts, more)
                &&& lost_in(more) + final(self).count == old(self).count
            }),
            final(report)@.files == old(report)@.files,
            final(report)@.directories == old(report)@.directories,
            final(report)@.used == old(report)@.used && final(report)@.free == old(report)@.free,
            final(report)@.bad == old(report)@.bad && final(report)@.lost == old(report)@.lost,
            final(report)@.passes == old(report)@.passes,
    {
        assert(lost_in(Seq::<Finding>::empty()) == 0);
        if self.count > 0 {
            let finding = Finding::LostClusters { first: self.first, count: self.count };
            report.record(&finding);
            found.push(finding);
            proof {
                let more = seq![finding];
                assert(more.drop_last() =~= Seq::<Finding>::empty());
                assert(more.last() == finding);
                assert(counted(old(report)@.counts, Seq::<Finding>::empty()) == old(report)@.counts);
                assert(found@ =~= old(found)@ + more);
            }
            *self = LostRun::new();
        } else {
            assert(found@ =~= old(found)@ + Seq::<Finding>::empty());
        }
    }

    /// Counts `cluster` of a FAT of `kind`, whose entry holds `value` and
    /// which a chain `claimed` or not, as free, bad or used, and lost when
    /// in use and unclaimed; reports the run it ends. Every lost cluster is
    /// reported once: the lost clusters the reports and the open run hold
    /// grow by one for a lost cluster and stay the same otherwise.
    pub fn scan(
        &mut self,
        report: &mut CheckReport,
        kind: FatKind,
        cluster: u32,
        value: u32,
        claimed: bool,
        found: &mut Vec<Finding>,
    )
        requires
            old(self).first + old(self).count <= cluster,
            cluster < u32::MAX,
            old(report)@.free < u32::MAX && old(report)@.used < u32::MAX,
            old(report)@.bad < u32::MAX && old(report)@.lost < u32::MAX,
        ensures
            ({
                let (next, more) = spec_scan(*old(self), kind, cluster, value, claimed);
                let lost: int = if in_use(kind, value) && !claimed {
                    1
                } else {
                    0
                };
                &&& *final(self) == next
                &&& final(found)@ == old(found)@ + more
                &&& final(report)@.counts == counted(old(report)@.counts, more)
                &&& lost_in(more) + final(self).count == old(self).count + lost
                &&& final(report)@.lost == old(report)@.lost + lost
            }),
            final(self).first + final(self).count <= cluster + 1,
            final(report)@.free == old(report)@.free + (if value == 0 {
                1int
            } else {
                0
            }),
            final(report)@.bad == old(report)@.bad + (if value != 0 && value == kind.spec_bad_cluster() {
                1int
            } else {
                0
            }),
            final(report)@.used == old(report)@.used + (if in_use(kind, value) {
                1int
            } else {
                0
            }),
            final(report)@.files == old(report)@.files,
            final(report)@.directories == old(report)@.directories,
            final(report)@.passes == old(report)@.passes,
    {
        if value == 0 {
            report.count_free();
        } else if kind.is_bad(value) {
            report.count_bad();
        } else {
            report.count_used();
            if !claimed {
                report.count_lost();
                if self.count > 0 && self.first + self.count == cluster {
                    self.count = self.count + 1;
                    assert(found@ =~= old(found)@ + Seq::<Finding>::empty());
                    assert(lost_in(Seq::<Finding>::empty()) == 0);
                } else {
                    self.flush_lost(report, found);
                    *self = LostRun { first: cluster, count: 1 };
                }
                return;
            }
        }
        self.flush_lost(report, found);
    }
}

/// The scan of the FAT entries `entries`, each a value and whether a
/// chain claims it, for the clusters from `first` on: the run left open
/// and the runs reported, in order.
pub open spec fn scan_all(kind: FatKind, first: int, entries: Seq<(u32, bool)>) -> (
    LostRun,
    Seq<Finding>,
)
    decreases entries.len(),
{
    if entries.len() == 0 {
        (LostRun { first: 0, count: 0 }, Seq::empty())
    } else {
        let (run, found) = scan_all(kind, first, entries.drop_last());
        let (value, claimed) = entries.last();
        let (next, more) = spec_scan(run, kind, (first + entries.len() - 1) as u32, value, claimed);
        (next, found + more)
    }
}

/// Whether cluster `c`, whose entry is `entries[c - first]`, is in use and
/// claimed by no chain.
pub open spec fn lost_at(kind: FatKind, first: int, entries: Seq<(u32, bool)>, c: int) -> bool {
    in_use(kind, entries[c - first].0) && !entries[c - first].1
}

/// How many of `entries` are in use and claimed by no chain.
pub open spec fn lost_count(kind: FatKind, entries: Seq<(u32, bool)>) -> int
    decreases entries.len(),
{
    if entries.len() == 0 {
        0
    } else {
        lost_count(kind, entries.drop_last()) + if in_use(kind, entries.last().0)
            && !entries.last().1 {
            1int
        } else {
            0
        }
    }
}

/// The first cluster of a reported run.
pub open spec fn run_first(f: Finding) -> int {
    match f {
        Finding::LostClusters { first, .. } => first as int,
        _ => 0,
    }
}

/// The cluster after the last of a reported run.
pub open spec fn run_end(f: Finding) -> int {
    match f {
        Finding::LostClusters { first, count } => first + count,
        _ => 0,
    }
}

/// Whether `found` reports runs of lost clusters among the entries from
/// `first`: each a non-empty run of lost clusters, in ascending order,
/// with a cluster that is not lost between any two.
pub open spec fn reports_lost_runs(
    kind: FatKind,
    first: int,
    entries: Seq<(u32, bool)>,
    found: Seq<Finding>,
) -> bool {
    &&& forall|j: int|
        0 <= j < found.len() ==> {
            &&& #[trigger] found[j] is LostClusters
            &&& first <= run_first(found[j]) < run_end(found[j]) <= first + entries.len()
            &&& forall|c: int|
                run_first(found[j]) <= c < run_end(found[j]) ==> #[trigger] lost_at(
                    kind,
                    first,
                    entries,
                    c,
                )
        }
    &&& forall|j: int, k: int|
        0 <= j < k < found.len() ==> run_end(#[trigger] found[j]) < run_first(#[trigger] found[k])
}

/// What holds after the scan of `entries`: the runs reported so far, the
/// open run ending at the last cluster scanned and holding lost clusters
/// only, every reported run ending before it, and every lost cluster in a
/// reported run or the open one.
proof fn lemma_scan_all(kind: FatKind, first: int, entries: Seq<(u32, bool)>)
    requires
        0 <= first,
        first + entries.len() <= u32::MAX,
    ensures
        ({
            let (run, found) = scan_all(kind, first, entries);
            let limit = if run.count > 0 {
                run.first as int
            } else {
                first + entries.len()
            };
            &&& reports_lost_runs(kind, first, entries, found)
            &&& run.count > 0 ==> first <= run.first && run.first + run.count == first
                + entries.len()
            &&& forall|c: int|
                run.first <= c < run.first + run.count ==> #[trigger] lost_at(kind, first, entries, c)
            &&& forall|j: int| 0 <= j < found.len() ==> run_end(#[trigger] found[j]) < limit
            &&& lost_in(found) + run.count == lost_count(kind, entries)
        }),
    decreases entries.len(),
{
    if entries.len() == 0 {
        return;
    }
    let pre = entries.drop_last();
    let m = pre.len() as int;
    let cluster = first + m;
    lemma_scan_all(kind, first, pre);
    let (run, found) = scan_all(kind, first, pre);
    let (value, claimed) = entries.last();
    let (next, more) = spec_scan(run, kind, cluster as u32, value, claimed);
    assert(scan_all(kind, first, entries) == (next, found + more));
    assert forall|c: int| first <= c < cluster implies #[trigger] lost_at(kind, first, entries, c)
        == lost_at(kind, first, pre, c) by {
        assert(entries[c - first] == pre[c - first]);
    }
    assert(entries[cluster - first] == (value, claimed));
    let lost_here = in_use(kind, value) && !claimed;
    assert(lost_at(kind, first, entries, cluster) == lost_here);
    let all = found + more;
    assert(lost_in(Seq::<Finding>::empty()) == 0);
    if more.len() == 1 {
        assert(more.drop_last() =~= Seq::<Finding>::empty());
        assert(all.drop_last() =~= found);
        assert(more[0] == Finding::LostClusters { first: run.first, count: run.count });
    } else {
        assert(more =~= Seq::<Finding>::empty());
        assert(all =~= found);
    }
    assert forall|j: int| 0 <= j < all.len() implies {
        &&& #[trigger] all[j] is LostClusters
        &&& first <= run_first(all[j]) < run_end(all[j]) <= first + entries.len()
        &&& forall|c: int|
            run_first(all[j]) <= c < run_end(all[j]) ==> #[trigger] lost_at(kind, first, entries, c)
    } by {
        if j < found.len() {
            assert(all[j] == found[j]);
            assert forall|c: int| run_first(all[j]) <= c < run_end(all[j]) implies #[trigger] lost_at(
                kind,
                first,
                entries,
                c,
            ) by {
                assert(lost_at(kind, first, pre, c));
            }
        } else {
            assert(all[j] == more[0]);
            assert forall|c: int| run_first(all[j]) <= c < run_end(all[j]) implies #[trigger] lost_at(
                kind,
                first,
                entries,
                c,
            ) by {
                assert(lost_at(kind, first, pre, c));
            }
        }
    }
    assert forall|j: int, k: int| 0 <= j < k < all.len() implies run_end(#[trigger] all[j])
        < run_first(#[trigger] all[k]) by {
        if k < found.len() {
            assert(all[j] == found[j] && all[k] == found[k]);
        } else {
            assert(all[j] == found[j] && all[k] == more[0]);
        }
    }
    let limit = if next.count > 0 {
        next.first as int
    } else {
        first + entries.len()
    };
    assert forall|j: int| 0 <= j < all.len() implies run_end(#[trigger] all[j]) < limit by {
        if j < found.len() {
            assert(all[j] == found[j]);
        } else {
            assert(all[j] == more[0]);
        }
    }
    assert forall|c: int| next.first <= c < next.first + next.count implies #[trigger] lost_at(
        kind,
        first,
        entries,
        c,
    ) by {
        if c < cluster {
            assert(lost_at(kind, first, pre, c));
        }
    }
}

/// The scan of a FAT, with the open run reported at the end, reports
/// every lost cluster exactly once: each report is a non-empty run of
/// clusters in use that no chain claims, the runs come in ascending order
/// with a cluster that is not lost between any two, and the clusters they
/// hold number the lost clusters.
pub proof fn lemma_scan_reports_lost_clusters_once(kind: FatKind, first: u32, entries: Seq<(u32, bool)>)
    requires
        first + entries.len() <= u32::MAX,
    ensures
        ({
            let (run, found) = scan_all(kind, first as int, entries);
            let all = found + spec_flush(run).1;
            &&& reports_lost_runs(kind, first as int, entries, all)
            &&& lost_in(all) == lost_count(kind, entries)
        }),
{
    let f = first as int;
    lemma_scan_all(kind, f, entries);
    let (run, found) = scan_all(kind, f, entries);
    let more = spec_flush(run).1;
    let all = found + more;
    assert(lost_in(Seq::<Finding>::empty()) == 0);
    if run.count > 0 {
        assert(more.drop_last() =~= Seq::<Finding>::empty());
        assert(all.drop_last() =~= found);
        assert forall|j: int| 0 <= j < all.len() implies {
            &&& #[trigger] all[j] is LostClusters
            &&& f <= run_first(all[j]) < run_end(all[j]) <= f + entries.len()
            &&& forall|c: int|
                run_first(all[j]) <= c < run_end(all[j]) ==> #[trigger] lost_at(kind, f, entries, c)
        } by {
            if j < found.len() {
                assert(all[j] == found[j]);
            } else {
                assert(all[j] == more[0]);
            }
        }
        assert forall|j: int, k: int| 0 <= j < k < all.len() implies run_end(#[trigger] all[j])
            < run_first(#[trigger] all[k]) by {
            if k < found.len() {
                assert(all[j] == found[j] && all[k] == found[k]);
            } else {
                assert(all[j] == found[j] && all[k] == more[0]);
            }
        }
    } else {
        assert(all =~= found);
    }
}

/// Each cluster the scan reads is counted exactly once: free, bad, or in
/// use.
pub proof fn lemma_scan_counts_each_cluster_once(kind: FatKind, value: u32)
    ensures
        (if value == 0 {
            1int
        } else {
            0
        }) + (if value != 0 && value == kind.spec_bad_cluster() {
            1int
        } else {
            0
        }) + (if in_use(kind, value) {
            1int
        } else {
            0
        }) == 1,
{
}

} // verus!
