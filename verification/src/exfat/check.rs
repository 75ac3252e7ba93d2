//! The cluster scan of an exFAT `check`: how each cluster of the heap is
//! counted, and how runs of lost clusters and of free clusters in use are
//! reported.

use vstd::prelude::*;
use crate::exfat::findings::{counted, CheckReport, Finding, ReportView};

verus! {

/// The clusters that `findings` report in runs of lost clusters.
pub open spec fn lost_in(findings: Seq<Finding>) -> int
    decreases findings.len(),
{
    if findings.len() == 0 {
        0
    } else {
        lost_in(findings.drop_last()) + match findings.last() {
            Finding::LostClusters { count, .. } => count as int,
            _ => 0,
        }
    }
}

/// The clusters that `findings` report in runs of free clusters in use.
pub open spec fn free_in_use_in(findings: Seq<Finding>) -> int
    decreases findings.len(),
{
    if findings.len() == 0 {
        0
    } else {
        free_in_use_in(findings.drop_last()) + match findings.last() {
            Finding::FreeInUse { count, .. } => count as int,
            _ => 0,
        }
    }
}

/// The runs the scan has seen but not reported yet, each a first cluster
/// and a count: clusters in use that no entry claims, and clusters the
/// bitmap marks free that an entry claims.
#[derive(Debug, Clone, Copy, PartialEq, Eq)]
pub struct Tally {
    /// The run of lost clusters.
    pub lost: (u32, u32),
    /// The run of free clusters in use.
    pub free_in_use: (u32, u32),
}

/// Reports the run of lost clusters, if there is one.
pub open spec fn spec_flush_lost(t: Tally) -> (Tally, Seq<Finding>) {
    if t.lost.1 > 0 {
        (Tally { lost: (0, 0), ..t }, seq![Finding::LostClusters { first: t.lost.0, count: t.lost.1 }])
    } else {
        (t, Seq::empty())
    }
}

/// Reports the run of free clusters in use, if there is one.
pub open spec fn spec_flush_free_in_use(t: Tally) -> (Tally, Seq<Finding>) {
    if t.free_in_use.1 > 0 {
        (
            Tally { free_in_use: (0, 0), ..t },
            seq![Finding::FreeInUse { first: t.free_in_use.0, count: t.free_in_use.1 }],
        )
    } else {
        (t, Seq::empty())
    }
}

/// What the scan does at `cluster`, which the bitmap marks `allocated` and
/// an entry `claimed`, and which the FAT marks bad when `bad`: a free
/// cluster ends the lost run and, claimed, extends or starts a run of free
/// clusters in use; a used one ends that run and, unclaimed and not bad,
/// extends or starts a lost run.
pub open spec fn spec_tally(t: Tally, cluster: u32, allocated: bool, claimed: bool, bad: bool) -> (
    Tally,
    Seq<Finding>,
) {
    if !allocated {
        let (t1, f1) = spec_flush_lost(t);
        if claimed {
            if t1.free_in_use.1 > 0 && t1.free_in_use.0 + t1.free_in_use.1 == cluster {
                (Tally { free_in_use: (t1.free_in_use.0, (t1.free_in_use.1 + 1) as u32), ..t1 }, f1)
            } else {
                let (t2, f2) = spec_flush_free_in_use(t1);
                (Tally { free_in_use: (cluster, 1), ..t2 }, f1 + f2)
            }
        } else {
            let (t2, f2) = spec_flush_free_in_use(t1);
            (t2, f1 + f2)
        }
    } else {
        let (t1, f1) = spec_flush_free_in_use(t);
        if claimed || bad {
            let (t2, f2) = spec_flush_lost(t1);
            (t2, f1 + f2)
        } else if t1.lost.1 > 0 && t1.lost.0 + t1.lost.1 == cluster {
            (Tally { lost: (t1.lost.0, (t1.lost.1 + 1) as u32), ..t1 }, f1)
        } else {
            let (t2, f2) = spec_flush_lost(t1);
            (Tally { lost: (cluster, 1), ..t2 }, f1 + f2)
        }
    }
}

impl Tally {
    /// No run seen.
    pub fn new() -> (t: Self)
        ensures
            t == (Tally { lost: (0, 0), free_in_use: (0, 0) }),
    {
        Tally { lost: (0, 0), free_in_use: (0, 0) }
    }

    /// Whether both runs end at or before `cluster`, as they do while the
    /// scan goes up the heap.
    pub open spec fn before(&self, cluster: u32) -> bool {
        self.lost.0 + self.lost.1 <= cluster && self.free_in_use.0 + self.free_in_use.1 <= cluster
    }

    /// Records `finding` in `report` and appends it to `found`.
    fn report(report: &mut CheckReport, finding: Finding, found: &mut Vec<Finding>)
        ensures
            final(report)@.counts == counted(old(report)@.counts, seq![finding]),
            final(report)@.files == old(report)@.files,
            final(report)@.directories == old(report)@.directories,
            final(report)@.used == old(report)@.used && final(report)@.free == old(report)@.free,
            final(report)@.bad == old(report)@.bad && final(report)@.lost == old(report)@.lost,
            final(report)@.passes == old(report)@.passes,
            final(found)@ == old(found)@.push(finding),
    {
        report.record(&finding);
        found.push(finding);
        assert(seq![finding].drop_last() =~= Seq::<Finding>::empty());
        assert(counted(old(report)@.counts, Seq::<Finding>::empty()) == old(report)@.counts);
        assert(seq![finding].last() == finding);
    }

    /// Reports the run of lost clusters, if there is one.
    pub fn flush_lost(&mut self, report: &mut CheckReport, found: &mut Vec<Finding>)
        ensures
            ({
                let (next, more) = spec_flush_lost(*old(self));
                &&& *final(self) == next
                &&& final(found)@ == old(found)@ + more
                &&& final(report)@.counts == counted(old(report)@.counts, more)
            }),
            final(report)@.files == old(report)@.files,
            final(report)@.directories == old(report)@.directories,
            final(report)@.used == old(report)@.used && final(report)@.free == old(report)@.free,
            final(report)@.bad == old(report)@.bad && final(report)@.lost == old(report)@.lost,
            final(report)@.passes == old(report)@.passes,
    {
        if self.lost.1 > 0 {
            let (first, count) = self.lost;
            self.lost = (0, 0);
            Self::report(report, Finding::LostClusters { first, count }, found);
            assert(found@ =~= old(found)@ + seq![Finding::LostClusters { first, count }]);
        } else {
            assert(found@ =~= old(found)@ + Seq::<Finding>::empty());
        }
    }

    /// Reports the run of free clusters in use, if there is one.
    pub fn flush_free_in_use(&mut self, report: &mut CheckReport, found: &mut Vec<Finding>)
        ensures
            ({
                let (next, more) = spec_flush_free_in_use(*old(self));
                &&& *final(self) == next
                &&& final(found)@ == old(found)@ + more
                &&& final(report)@.counts == counted(old(report)@.counts, more)
            }),
            final(report)@.files == old(report)@.files,
            final(report)@.directories == old(report)@.directories,
            final(report)@.used == old(report)@.used && final(report)@.free == old(report)@.free,
            final(report)@.bad == old(report)@.bad && final(report)@.lost == old(report)@.lost,
            final(report)@.passes == old(report)@.passes,
    {
        if self.free_in_use.1 > 0 {
            let (first, count) = self.free_in_use;
            self.free_in_use = (0, 0);
            Self::report(report, Finding::FreeInUse { first, count }, found);
            assert(found@ =~= old(found)@ + seq![Finding::FreeInUse { first, count }]);
        } else {
            assert(found@ =~= old(found)@ + Seq::<Finding>::empty());
        }
    }
}

impl Tally {
    /// Counts `cluster`, which the bitmap marks `allocated` and an entry
    /// `claimed`, and which the FAT marks bad when `bad` (read only for
    /// allocated clusters no entry claims): free, used, bad or lost, and
    /// reports the runs it ends. Every cluster a run holds is reported once:
    /// the lost clusters the reports and the open run hold grow by one for
    /// a lost cluster and stay the same otherwise, and likewise for free
    /// clusters in use.
    pub fn tally(
        &mut self,
        report: &mut CheckReport,
        cluster: u32,
        allocated: bool,
        claimed: bool,
        bad: bool,
        found: &mut Vec<Finding>,
    )
        requires
            old(self).before(cluster),
            cluster < u32::MAX,
            old(report)@.free < u32::MAX && old(report)@.used < u32::MAX,
            old(report)@.bad < u32::MAX && old(report)@.lost < u32::MAX,
        ensures
            ({
                let (next, more) = spec_tally(*old(self), cluster, allocated, claimed, bad);
                let lost: int = if allocated && !claimed && !bad {
                    1
                } else {
                    0
                };
                let free_in_use: int = if !allocated && claimed {
                    1
                } else {
                    0
                };
                &&& *final(self) == next
                &&& final(found)@ == old(found)@ + more
                &&& final(report)@.counts == counted(old(report)@.counts, more)
                &&& lost_in(more) + final(self).lost.1 == old(self).lost.1 + lost
                &&& free_in_use_in(more) + final(self).free_in_use.1 == old(self).free_in_use.1
                    + free_in_use
                &&& final(report)@.lost == old(report)@.lost + lost
            }),
            final(self).before((cluster + 1) as u32),
            final(report)@.free == old(report)@.free + (if allocated {
                0int
            } else {
                1
            }),
            final(report)@.used == old(report)@.used + (if allocated {
                1int
            } else {
                0
            }),
            final(report)@.bad == old(report)@.bad + (if allocated && !claimed && bad {
                1int
            } else {
                0
            }),
            final(report)@.files == old(report)@.files,
            final(report)@.directories == old(report)@.directories,
            final(report)@.passes == old(report)@.passes,
    {
        let ghost start = found@;
        let ghost counts0 = report@.counts;
        let ghost t0 = *self;
        proof {
            lemma_flush_lost(t0);
            lemma_flush_free_in_use(t0);
            lemma_flush_lost(spec_flush_free_in_use(t0).0);
            lemma_flush_free_in_use(spec_flush_lost(t0).0);
        }
        if !allocated {
            report.count_free();
            let ghost f1 = spec_flush_lost(t0).1;
            self.flush_lost(report, found);
            if claimed && self.free_in_use.1 > 0 && self.free_in_use.0 + self.free_in_use.1 == cluster {
                self.free_in_use.1 = self.free_in_use.1 + 1;
            } else {
                let ghost f2 = spec_flush_free_in_use(*self).1;
                self.flush_free_in_use(report, found);
                if claimed {
                    self.free_in_use = (cluster, 1);
                }
                proof {
                    lemma_counted_append(counts0, f1, f2);
                    assert(found@ =~= start + (f1 + f2));
                }
            }
            return;
        }
        report.count_used();
        let ghost f1 = spec_flush_free_in_use(t0).1;
        self.flush_free_in_use(report, found);
        if claimed || bad {
            if !claimed {
                report.count_bad();
            }
            let ghost f2 = spec_flush_lost(*self).1;
            self.flush_lost(report, found);
            proof {
                lemma_counted_append(counts0, f1, f2);
                assert(found@ =~= start + (f1 + f2));
            }
            return;
        }
        report.count_lost();
        if self.lost.1 > 0 && self.lost.0 + self.lost.1 == cluster {
            self.lost.1 = self.lost.1 + 1;
        } else {
            let ghost f2 = spec_flush_lost(*self).1;
            self.flush_lost(report, found);
            self.lost = (cluster, 1);
            proof {
                lemma_counted_append(counts0, f1, f2);
                assert(found@ =~= start + (f1 + f2));
            }
        }
    }
}

/// Reporting the lost run moves its clusters from the run to the reports.
proof fn lemma_flush_lost(t: Tally)
    ensures
        ({
            let (next, more) = spec_flush_lost(t);
            &&& lost_in(more) + next.lost.1 == t.lost.1
            &&& free_in_use_in(more) == 0
            &&& next.free_in_use == t.free_in_use
        }),
{
    let more = spec_flush_lost(t).1;
    assert(lost_in(Seq::<Finding>::empty()) == 0 && free_in_use_in(Seq::<Finding>::empty()) == 0);
    if t.lost.1 > 0 {
        assert(more.drop_last() =~= Seq::<Finding>::empty());
        assert(more.last() == Finding::LostClusters { first: t.lost.0, count: t.lost.1 });
    }
}

/// Reporting the run of free clusters in use moves its clusters from the
/// run to the reports.
proof fn lemma_flush_free_in_use(t: Tally)
    ensures
        ({
            let (next, more) = spec_flush_free_in_use(t);
            &&& free_in_use_in(more) + next.free_in_use.1 == t.free_in_use.1
            &&& lost_in(more) == 0
            &&& next.lost == t.lost
        }),
{
    let more = spec_flush_free_in_use(t).1;
    assert(lost_in(Seq::<Finding>::empty()) == 0 && free_in_use_in(Seq::<Finding>::empty()) == 0);
    if t.free_in_use.1 > 0 {
        assert(more.drop_last() =~= Seq::<Finding>::empty());
        assert(more.last() == Finding::FreeInUse { first: t.free_in_use.0, count: t.free_in_use.1 });
    }
}

/// Counting both sequences of findings is counting one, then the other.
proof fn lemma_counted_append(counts: Seq<u32>, a: Seq<Finding>, b: Seq<Finding>)
    ensures
        counted(counts, a + b) == counted(counted(counts, a), b),
        lost_in(a + b) == lost_in(a) + lost_in(b),
        free_in_use_in(a + b) == free_in_use_in(a) + free_in_use_in(b),
    decreases b.len(),
{
    if b.len() == 0 {
        assert(a + b =~= a);
    } else {
        lemma_counted_append(counts, a, b.drop_last());
        assert((a + b).drop_last() =~= a + b.drop_last());
        assert((a + b).last() == b.last());
    }
}

/// The tally of the clusters `clusters`, each marked allocated by the
/// bitmap, claimed by an entry, and bad in the FAT, from `first` on: the
/// runs left open and the runs reported, in order.
pub open spec fn tally_all(first: int, clusters: Seq<(bool, bool, bool)>) -> (Tally, Seq<Finding>)
    decreases clusters.len(),
{
    if clusters.len() == 0 {
        (Tally { lost: (0, 0), free_in_use: (0, 0) }, Seq::empty())
    } else {
        let (t, found) = tally_all(first, clusters.drop_last());
        let (allocated, claimed, bad) = clusters.last();
        let (next, more) = spec_tally(
            t,
            (first + clusters.len() - 1) as u32,
            allocated,
            claimed,
            bad,
        );
        (next, found + more)
    }
}

/// Whether a cluster so marked is lost: allocated, claimed by no entry,
/// and not bad.
pub open spec fn is_lost(c: (bool, bool, bool)) -> bool {
    c.0 && !c.1 && !c.2
}

/// Whether a cluster so marked is free in the bitmap but claimed.
pub open spec fn is_free_in_use(c: (bool, bool, bool)) -> bool {
    !c.0 && c.1
}

/// Whether cluster `c` holds what a report of the kind of `f` names: lost
/// for a run of lost clusters, free in use for a run of free clusters in
/// use.
pub open spec fn marked_at(f: Finding, first: int, clusters: Seq<(bool, bool, bool)>, c: int) -> bool {
    match f {
        Finding::LostClusters { .. } => is_lost(clusters[c - first]),
        _ => is_free_in_use(clusters[c - first]),
    }
}

/// How many of `clusters` are lost.
pub open spec fn lost_count(clusters: Seq<(bool, bool, bool)>) -> int
    decreases clusters.len(),
{
    if clusters.len() == 0 {
        0
    } else {
        lost_count(clusters.drop_last()) + if is_lost(clusters.last()) {
            1int
        } else {
            0
        }
    }
}

/// How many of `clusters` are free in use.
pub open spec fn free_in_use_count(clusters: Seq<(bool, bool, bool)>) -> int
    decreases clusters.len(),
{
    if clusters.len() == 0 {
        0
    } else {
        free_in_use_count(clusters.drop_last()) + if is_free_in_use(clusters.last()) {
            1int
        } else {
            0
        }
    }
}

/// The first cluster of a reported run.
pub open spec fn run_first(f: Finding) -> int {
    match f {
        Finding::LostClusters { first, .. } => first as int,
        Finding::FreeInUse { first, .. } => first as int,
        _ => 0,
    }
}

/// The cluster after the last of a reported run.
pub open spec fn run_end(f: Finding) -> int {
    match f {
        Finding::LostClusters { first, count } => first + count,
        Finding::FreeInUse { first, count } => first + count,
        _ => 0,
    }
}

/// Whether two reports are of the same kind of run.
pub open spec fn same_run_kind(a: Finding, b: Finding) -> bool {
    (a is LostClusters && b is LostClusters) || (a is FreeInUse && b is FreeInUse)
}

/// Whether `found` reports runs among the clusters from `first`: each a
/// non-empty run of lost clusters or of free clusters in use, and runs of
/// one kind in ascending order with a cluster of another kind between any
/// two.
pub open spec fn reports_runs(first: int, clusters: Seq<(bool, bool, bool)>, found: Seq<Finding>) -> bool {
    &&& forall|j: int|
        0 <= j < found.len() ==> {
            &&& (#[trigger] found[j] is LostClusters || found[j] is FreeInUse)
            &&& first <= run_first(found[j]) < run_end(found[j]) <= first + clusters.len()
            &&& forall|c: int|
                run_first(found[j]) <= c < run_end(found[j]) ==> #[trigger] marked_at(
                    found[j],
                    first,
                    clusters,
                    c,
                )
        }
    &&& forall|j: int, k: int|
        0 <= j < k < found.len() && same_run_kind(found[j], found[k]) ==> run_end(
            #[trigger] found[j],
        ) < run_first(#[trigger] found[k])
}

/// The cluster before which every reported run of the kind of `f` ends:
/// the first of the open run of that kind, or the next cluster to scan.
pub open spec fn run_limit(f: Finding, t: Tally, next: int) -> int {
    match f {
        Finding::LostClusters { .. } => if t.lost.1 > 0 {
            t.lost.0 as int
        } else {
            next
        },
        _ => if t.free_in_use.1 > 0 {
            t.free_in_use.0 as int
        } else {
            next
        },
    }
}

/// What holds after the tally of `clusters`: the runs reported so far, the
/// open runs ending at the last cluster tallied and holding clusters of
/// their kind only, every reported run ending before the open run of its
/// kind, and every lost or free-in-use cluster in a reported or open run.
proof fn lemma_tally_all(first: int, clusters: Seq<(bool, bool, bool)>)
    requires
        0 <= first,
        first + clusters.len() <= u32::MAX,
    ensures
        ({
            let (t, found) = tally_all(first, clusters);
            let next = first + clusters.len();
            &&& reports_runs(first, clusters, found)
            &&& t.lost.1 > 0 ==> first <= t.lost.0 && t.lost.0 + t.lost.1 == next
            &&& t.free_in_use.1 > 0 ==> first <= t.free_in_use.0 && t.free_in_use.0
                + t.free_in_use.1 == next
            &&& forall|c: int|
                t.lost.0 <= c < t.lost.0 + t.lost.1 ==> is_lost(#[trigger] clusters[c - first])
            &&& forall|c: int|
                t.free_in_use.0 <= c < t.free_in_use.0 + t.free_in_use.1 ==> is_free_in_use(
                    #[trigger] clusters[c - first],
                )
            &&& forall|j: int|
                0 <= j < found.len() ==> run_end(#[trigger] found[j]) < run_limit(found[j], t, next)
            &&& lost_in(found) + t.lost.1 == lost_count(clusters)
            &&& free_in_use_in(found) + t.free_in_use.1 == free_in_use_count(clusters)
        }),
    decreases clusters.len(),
{
    if clusters.len() == 0 {
        assert(lost_in(Seq::<Finding>::empty()) == 0);
        assert(free_in_use_in(Seq::<Finding>::empty()) == 0);
        return;
    }
    let pre = clusters.drop_last();
    let m = pre.len() as int;
    let cluster = first + m;
    lemma_tally_all(first, pre);
    let (t, found) = tally_all(first, pre);
    let (allocated, claimed, bad) = clusters.last();
    let (next, more) = spec_tally(t, cluster as u32, allocated, claimed, bad);
    assert(tally_all(first, clusters) == (next, found + more));
    assert forall|c: int| first <= c < cluster implies #[trigger] clusters[c - first] == pre[c
        - first] by {}
    assert(clusters[cluster - first] == (allocated, claimed, bad));
    let lost_run = Finding::LostClusters { first: t.lost.0, count: t.lost.1 };
    let fiu_run = Finding::FreeInUse { first: t.free_in_use.0, count: t.free_in_use.1 };
    let here = (allocated, claimed, bad);
    // What the step reports: the open run of a kind the cluster is not of.
    assert(forall|i: int|
        0 <= i < more.len() ==> (#[trigger] more[i] == lost_run && t.lost.1 > 0 && !is_lost(here))
            || (more[i] == fiu_run && t.free_in_use.1 > 0 && !is_free_in_use(here)));
    assert(more.len() == 2 ==> !same_run_kind(more[0], more[1]));
    assert(!is_lost(here) ==> next.lost.1 == 0);
    assert(!is_free_in_use(here) ==> next.free_in_use.1 == 0);
    assert(is_lost(here) ==> next.lost.1 > 0 && next.lost.0 + next.lost.1 == cluster + 1 && (
    t.lost.1 > 0 ==> next.lost.0 == t.lost.0) && (t.lost.1 == 0 ==> next.lost.0 == cluster));
    assert(is_free_in_use(here) ==> next.free_in_use.1 > 0 && next.free_in_use.0
        + next.free_in_use.1 == cluster + 1 && (t.free_in_use.1 > 0 ==> next.free_in_use.0
        == t.free_in_use.0) && (t.free_in_use.1 == 0 ==> next.free_in_use.0 == cluster));
    assert(lost_in(more) + next.lost.1 == t.lost.1 + (if is_lost(here) { 1int } else { 0 })) by {
        lemma_flush_lost(t);
        lemma_flush_free_in_use(t);
        lemma_flush_lost(spec_flush_free_in_use(t).0);
        lemma_flush_free_in_use(spec_flush_lost(t).0);
    }
    assert(free_in_use_in(more) + next.free_in_use.1 == t.free_in_use.1 + (if is_free_in_use(
        here,
    ) {
        1int
    } else {
        0
    })) by {
        lemma_flush_lost(t);
        lemma_flush_free_in_use(t);
        lemma_flush_lost(spec_flush_free_in_use(t).0);
        lemma_flush_free_in_use(spec_flush_lost(t).0);
    }
    lemma_counted_append(Seq::<u32>::empty(), found, more);
    let all = found + more;
    assert forall|j: int| 0 <= j < all.len() implies {
        &&& (#[trigger] all[j] is LostClusters || all[j] is FreeInUse)
        &&& first <= run_first(all[j]) < run_end(all[j]) <= first + clusters.len()
        &&& forall|c: int|
            run_first(all[j]) <= c < run_end(all[j]) ==> #[trigger] marked_at(
                all[j],
                first,
                clusters,
                c,
            )
        &&& run_end(all[j]) < run_limit(all[j], next, cluster + 1)
    } by {
        if j < found.len() {
            assert(all[j] == found[j]);
            assert forall|c: int| run_first(all[j]) <= c < run_end(all[j]) implies #[trigger] marked_at(
                all[j],
                first,
                clusters,
                c,
            ) by {
                assert(marked_at(found[j], first, pre, c));
            }
        } else {
            assert(all[j] == more[j - found.len()]);
            assert forall|c: int| run_first(all[j]) <= c < run_end(all[j]) implies #[trigger] marked_at(
                all[j],
                first,
                clusters,
                c,
            ) by {
                assert(clusters[c - first] == pre[c - first]);
            }
        }
    }
    assert forall|j: int, k: int|
        0 <= j < k < all.len() && same_run_kind(all[j], all[k]) implies run_end(#[trigger] all[j])
        < run_first(#[trigger] all[k]) by {
        if k < found.len() {
            assert(all[j] == found[j] && all[k] == found[k]);
        } else if j < found.len() {
            assert(all[j] == found[j] && all[k] == more[k - found.len()]);
        } else {
            assert(all[j] == more[j - found.len()] && all[k] == more[k - found.len()]);
        }
    }
    assert forall|c: int| next.lost.0 <= c < next.lost.0 + next.lost.1 implies is_lost(
        #[trigger] clusters[c - first],
    ) by {
        if c < cluster {
            assert(clusters[c - first] == pre[c - first]);
        }
    }
    assert forall|c: int|
        next.free_in_use.0 <= c < next.free_in_use.0 + next.free_in_use.1 implies is_free_in_use(
        #[trigger] clusters[c - first],
    ) by {
        if c < cluster {
            assert(clusters[c - first] == pre[c - first]);
        }
    }
    assert(clusters.drop_last() == pre);
}

/// The tally of an exFAT heap, with both open runs reported at the end,
/// reports every lost cluster and every free cluster in use exactly once:
/// each report is a non-empty run of clusters of its kind, runs of one
/// kind come in ascending order with a cluster of another kind between
/// any two, and the clusters they hold number the lost clusters and the
/// free clusters in use.
pub proof fn lemma_tally_reports_runs_once(first: u32, clusters: Seq<(bool, bool, bool)>)
    requires
        first + clusters.len() <= u32::MAX,
    ensures
        ({
            let (t, found) = tally_all(first as int, clusters);
            let (t1, f1) = spec_flush_lost(t);
            let (t2, f2) = spec_flush_free_in_use(t1);
            let all = found + f1 + f2;
            &&& t2.lost.1 == 0 && t2.free_in_use.1 == 0
            &&& reports_runs(first as int, clusters, all)
            &&& lost_in(all) == lost_count(clusters)
            &&& free_in_use_in(all) == free_in_use_count(clusters)
        }),
{
    let f = first as int;
    lemma_tally_all(f, clusters);
    let (t, found) = tally_all(f, clusters);
    let (t1, f1) = spec_flush_lost(t);
    let (t2, f2) = spec_flush_free_in_use(t1);
    lemma_flush_lost(t);
    lemma_flush_free_in_use(t1);
    let more = f1 + f2;
    let all = found + f1 + f2;
    assert(all =~= found + more);
    lemma_counted_append(Seq::<u32>::empty(), found, more);
    lemma_counted_append(Seq::<u32>::empty(), f1, f2);
    let lost_run = Finding::LostClusters { first: t.lost.0, count: t.lost.1 };
    let fiu_run = Finding::FreeInUse { first: t.free_in_use.0, count: t.free_in_use.1 };
    assert(forall|i: int|
        0 <= i < more.len() ==> (#[trigger] more[i] == lost_run && t.lost.1 > 0) || (more[i]
            == fiu_run && t.free_in_use.1 > 0));
    assert(more.len() == 2 ==> !same_run_kind(more[0], more[1]));
    assert forall|j: int| 0 <= j < all.len() implies {
        &&& (#[trigger] all[j] is LostClusters || all[j] is FreeInUse)
        &&& f <= run_first(all[j]) < run_end(all[j]) <= f + clusters.len()
        &&& forall|c: int|
            run_first(all[j]) <= c < run_end(all[j]) ==> #[trigger] marked_at(all[j], f, clusters, c)
    } by {
        if j < found.len() {
            assert(all[j] == found[j]);
        } else {
            assert(all[j] == more[j - found.len()]);
        }
    }
    assert forall|j: int, k: int|
        0 <= j < k < all.len() && same_run_kind(all[j], all[k]) implies run_end(#[trigger] all[j])
        < run_first(#[trigger] all[k]) by {
        if k < found.len() {
            assert(all[j] == found[j] && all[k] == found[k]);
        } else if j < found.len() {
            assert(all[j] == found[j] && all[k] == more[k - found.len()]);
            assert(run_end(found[j]) < run_limit(found[j], t, f + clusters.len()));
        } else {
            assert(all[j] == more[j - found.len()] && all[k] == more[k - found.len()]);
        }
    }
}

} // verus!
