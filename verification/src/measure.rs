//! What many runs of the refresh pipeline took: middle and high values of the
//! time that each part needed.
use vstd::prelude::*;
use crate::bd::client::RepoSyncReport;
use crate::runtime::{OperationCounts, PipelineMetrics};

verus! {

/// Runs that are not counted, before the first one that is.
pub const WARMUPS: usize = 2;

/// Runs that are counted.
pub const SAMPLES: usize = 10;

/// How many of `values` lie below `limit`.
pub open spec fn below(values: Seq<u128>, limit: int) -> nat
    decreases values.len(),
{
    if values.len() == 0 {
        0
    } else {
        below(values.drop_last(), limit) + if values.last() < limit {
            1nat
        } else {
            0
        }
    }
}

/// Whether `x` is what stands at index `k` when `values` are put in ascending
/// order: at most `k` of them are smaller, and more than `k` are not greater.
pub open spec fn ranked(values: Seq<u128>, k: int, x: u128) -> bool {
    below(values, x as int) <= k < below(values, x + 1)
}

/// The index of the middle value; of two, that of the greater one.
pub open spec fn median_index(len: nat) -> int {
    (len / 2) as int
}

/// The index of the smallest value that at least 95 of 100 do not exceed.
pub open spec fn percentile_95_index(len: nat) -> int {
    (len * 95 + 99) / 100 - 1
}

pub open spec fn is_ascending(values: Seq<u128>) -> bool {
    forall|i: int, j: int| 0 <= i <= j < values.len() ==> values[i] <= values[j]
}

proof fn lemma_below_insert(values: Seq<u128>, p: int, x: u128, limit: int)
    requires
        0 <= p <= values.len(),
    ensures
        below(values.insert(p, x), limit) == below(values, limit) + if x < limit {
            1nat
        } else {
            0
        },
    decreases values.len(),
{
    let longer = values.insert(p, x);
    if p == values.len() {
        assert(longer.drop_last() =~= values);
    } else {
        assert(longer.drop_last() =~= values.drop_last().insert(p, x));
        lemma_below_insert(values.drop_last(), p, x, limit);
    }
}

proof fn lemma_below_at_most(values: Seq<u128>, k: int, limit: int)
    requires
        0 <= k <= values.len(),
        forall|j: int| k <= j < values.len() ==> values[j] >= limit,
    ensures
        below(values, limit) <= k,
    decreases values.len(),
{
    if values.len() > 0 {
        let shorter = values.drop_last();
        if k == values.len() {
            lemma_below_at_most(shorter, k - 1, limit);
        } else {
            assert(values.last() == values[values.len() - 1]);
            lemma_below_at_most(shorter, k, limit);
        }
    }
}

proof fn lemma_below_at_least(values: Seq<u128>, k: int, limit: int)
    requires
        0 <= k <= values.len(),
        forall|j: int| 0 <= j < k ==> values[j] < limit,
    ensures
        below(values, limit) >= k,
    decreases values.len(),
{
    if values.len() > 0 {
        let shorter = values.drop_last();
        if k == values.len() {
            assert(values.last() == values[k - 1]);
            lemma_below_at_least(shorter, k - 1, limit);
        } else {
            lemma_below_at_least(shorter, k, limit);
        }
    }
}

proof fn lemma_below_grows(values: Seq<u128>, low: int, high: int)
    requires
        low <= high,
    ensures
        below(values, low) <= below(values, high),
    decreases values.len(),
{
    if values.len() > 0 {
        lemma_below_grows(values.drop_last(), low, high);
    }
}

/// At each index of the ascending order stands one value: the middle and the
/// high value of a series are determined by the series.
pub proof fn law_a_rank_has_one_value(values: Seq<u128>, k: int, x: u128, y: u128)
    requires
        ranked(values, k, x),
        ranked(values, k, y),
    ensures
        x == y,
        values.contains(x),
{
    if x < y {
        lemma_below_grows(values, x + 1, y as int);
    } else if y < x {
        lemma_below_grows(values, y + 1, x as int);
    }
    lemma_ranked_is_there(values, x);
}

proof fn lemma_ranked_is_there(values: Seq<u128>, x: u128)
    requires
        below(values, x as int) < below(values, x + 1),
    ensures
        values.contains(x),
    decreases values.len(),
{
    if values.last() == x {
        assert(values[values.len() - 1] == x);
    } else {
        lemma_ranked_is_there(values.drop_last(), x);
        let i = values.drop_last().index_of(x);
        assert(values[i] == x);
    }
}

/// The order in which a series was taken does not matter: any two of its values
/// can change places.
pub proof fn law_the_order_of_a_series_is_irrelevant(
    values: Seq<u128>,
    p: int,
    q: int,
    k: int,
    x: u128,
)
    requires
        0 <= p < values.len(),
        0 <= q < values.len(),
    ensures
        ranked(values.update(p, values[q]).update(q, values[p]), k, x) == ranked(values, k, x),
{
    lemma_below_swap(values, p, q, x as int);
    lemma_below_swap(values, p, q, x + 1);
}

proof fn lemma_below_swap(values: Seq<u128>, p: int, q: int, limit: int)
    requires
        0 <= p < values.len(),
        0 <= q < values.len(),
    ensures
        below(values.update(p, values[q]).update(q, values[p]), limit) == below(values, limit),
{
    lemma_below_update(values, p, values[q], limit);
    lemma_below_update(values.update(p, values[q]), q, values[p], limit);
}

proof fn lemma_below_update(values: Seq<u128>, p: int, x: u128, limit: int)
    requires
        0 <= p < values.len(),
    ensures
        below(values.update(p, x), limit) + (if values[p] < limit {
            1int
        } else {
            0
        }) == below(values, limit) + (if x < limit {
            1int
        } else {
            0
        }),
{
    let others = values.remove(p);
    assert(others.insert(p, values[p]) =~= values);
    assert(others.insert(p, x) =~= values.update(p, x));
    lemma_below_insert(others, p, values[p], limit);
    lemma_below_insert(others, p, x, limit);
}

/// The values in ascending order.
fn sorted(values: &[u128]) -> (res: Vec<u128>)
    ensures
        is_ascending(res@),
        res@.len() == values@.len(),
        forall|limit: int| #[trigger] below(res@, limit) == below(values@, limit),
{
    let mut out: Vec<u128> = Vec::new();
    let mut i: usize = 0;
    while i < values.len()
        invariant
            i <= values@.len(),
            is_ascending(out@),
            out@.len() == i,
            forall|limit: int| #[trigger]
                below(out@, limit) == below(values@.take(i as int), limit),
        decreases values@.len() - i,
    {
        let x: u128 = values[i];
        let mut p: usize = out.len();
        while p > 0 && out[p - 1] > x
            invariant
                p <= out@.len(),
                is_ascending(out@),
                forall|j: int| p <= j < out@.len() ==> out@[j] > x,
            decreases p,
        {
            p -= 1;
        }
        proof {
            let before = out@;
            assert forall|limit: int| #[trigger] below(before.insert(p as int, x), limit) == below(
                values@.take(i + 1),
                limit,
            ) by {
                lemma_below_insert(before, p as int, x, limit);
                assert(values@.take(i + 1).drop_last() =~= values@.take(i as int));
                assert(below(before, limit) == below(values@.take(i as int), limit));
            }
        }
        out.insert(p, x);
        i += 1;
    }
    assert(values@.take(values@.len() as int) =~= values@);
    out
}

/// What stands at index `k` of the ascending order.
fn at_rank(values: &[u128], k: usize) -> (res: u128)
    requires
        k < values@.len(),
    ensures
        ranked(values@, k as int, res),
{
    let ordered = sorted(values);
    let x: u128 = ordered[k];
    proof {
        lemma_below_at_most(ordered@, k as int, x as int);
        lemma_below_at_least(ordered@, k + 1, x + 1);
    }
    x
}

/// The middle value; of two, the greater one.
pub fn median(values: &[u128]) -> (res: u128)
    requires
        values@.len() > 0,
    ensures
        ranked(values@, median_index(values@.len()), res),
{
    at_rank(values, values.len() / 2)
}

/// The smallest value that at least 95 of 100 do not exceed.
pub fn percentile_95(values: &[u128]) -> (res: u128)
    requires
        values@.len() > 0,
    ensures
        ranked(values@, percentile_95_index(values@.len()), res),
{
    let len: u128 = values.len() as u128;
    let k: u128 = (len * 95 + 99) / 100 - 1;
    at_rank(values, k as usize)
}

/// A part of the pipeline whose time is measured.
#[derive(Debug, Clone, Copy, PartialEq, Eq, Structural)]
pub enum Measured {
    Total,
    Version,
    Reconcile,
    Source,
    Sync,
    Ready,
}

/// The nanoseconds that a part took in one run.
pub open spec fn nanos_of(metrics: PipelineMetrics, part: Measured) -> u64 {
    match part {
        Measured::Total => metrics.total,
        Measured::Version => metrics.version,
        Measured::Reconcile => metrics.reconcile,
        Measured::Source => metrics.source_wall,
        Measured::Sync => metrics.sync,
        Measured::Ready => metrics.ready,
    }
}

/// The whole microseconds that a part took in each run.
pub open spec fn micros_of(samples: Seq<PipelineMetrics>, part: Measured) -> Seq<u128> {
    samples.map_values(|m: PipelineMetrics| (nanos_of(m, part) / 1000) as u128)
}

fn micros(samples: &Vec<PipelineMetrics>, part: Measured) -> (res: Vec<u128>)
    ensures
        res@ == micros_of(samples@, part),
{
    let mut out: Vec<u128> = Vec::new();
    let mut i: usize = 0;
    while i < samples.len()
        invariant
            i <= samples@.len(),
            out@ == micros_of(samples@.take(i as int), part),
        decreases samples@.len() - i,
    {
        let nanos: u64 = match part {
            Measured::Total => samples[i].total,
            Measured::Version => samples[i].version,
            Measured::Reconcile => samples[i].reconcile,
            Measured::Source => samples[i].source_wall,
            Measured::Sync => samples[i].sync,
            Measured::Ready => samples[i].ready,
        };
        out.push((nanos / 1000) as u128);
        i += 1;
        assert(out@ =~= micros_of(samples@.take(i as int), part));
    }
    assert(samples@.take(samples@.len() as int) =~= samples@);
    out
}

/// What a series of runs over one roster took: times in microseconds, and the
/// calls and the report of the last run.
#[derive(Debug, PartialEq, Eq)]
pub struct StageRecord {
    pub stage: String,
    pub roster_size: usize,
    pub samples: usize,
    pub total_median: u128,
    pub total_p95: u128,
    pub version_median: u128,
    pub reconcile_median: u128,
    pub source_median: u128,
    pub sync_median: u128,
    pub ready_median: u128,
    pub calls: OperationCounts,
    pub sync_report: Option<RepoSyncReport>,
}

/// Whether `x` is the middle value of what a part took.
pub open spec fn is_median(samples: Seq<PipelineMetrics>, part: Measured, x: u128) -> bool {
    ranked(micros_of(samples, part), median_index(samples.len()), x)
}

/// The record of a series of runs.
pub fn record_stage(stage: &str, roster_size: usize, samples: &Vec<PipelineMetrics>) -> (res:
    StageRecord)
    requires
        samples@.len() > 0,
    ensures
        res.stage@ == stage@,
        res.roster_size == roster_size,
        res.samples == samples@.len(),
        is_median(samples@, Measured::Total, res.total_median),
        ranked(
            micros_of(samples@, Measured::Total),
            percentile_95_index(samples@.len()),
            res.total_p95,
        ),
        is_median(samples@, Measured::Version, res.version_median),
        is_median(samples@, Measured::Reconcile, res.reconcile_median),
        is_median(samples@, Measured::Source, res.source_median),
        is_median(samples@, Measured::Sync, res.sync_median),
        is_median(samples@, Measured::Ready, res.ready_median),
        res.calls == samples@.last().calls,
        res.sync_report == samples@.last().sync_report,
{
    let totals = micros(samples, Measured::Total);
    let last = &samples[samples.len() - 1];
    let sync_report = match &last.sync_report {
        Some(report) => Some(report.clone()),
        None => None,
    };
    StageRecord {
        stage: String::from_str(stage),
        roster_size,
        samples: samples.len(),
        total_median: median(totals.as_slice()),
        total_p95: percentile_95(totals.as_slice()),
        version_median: median(micros(samples, Measured::Version).as_slice()),
        reconcile_median: median(micros(samples, Measured::Reconcile).as_slice()),
        source_median: median(micros(samples, Measured::Source).as_slice()),
        sync_median: median(micros(samples, Measured::Sync).as_slice()),
        ready_median: median(micros(samples, Measured::Ready).as_slice()),
        calls: last.calls,
        sync_report,
    }
}

/// The nanoseconds that the parts of one run took.
#[derive(Debug, Clone, Copy, PartialEq, Eq, Structural)]
pub struct PartTimes {
    pub total: u64,
    pub version: u64,
    pub reconcile: u64,
    pub source_wall: u64,
    pub sync: u64,
    pub ready: u64,
}

/// What the baseline took: a run that exports each of `repos` repositories
/// directly and asks for each prefix, one after the other, with nothing kept
/// from earlier runs.
pub fn baseline_iteration(times: PartTimes, repos: usize, report: RepoSyncReport) -> (res:
    PipelineMetrics)
    ensures
        res == (PipelineMetrics {
            total: times.total,
            version: times.version,
            reconcile: times.reconcile,
            source_wall: times.source_wall,
            sync: times.sync,
            ready: times.ready,
            calls: OperationCounts {
                version: 1,
                export: repos,
                issue_prefix: repos,
                repo_sync: 1,
                ready: 1,
                search: 0,
            },
            sync_report: Some(report),
        }),
{
    PipelineMetrics {
        total: times.total,
        version: times.version,
        reconcile: times.reconcile,
        source_wall: times.source_wall,
        sync: times.sync,
        ready: times.ready,
        calls: OperationCounts {
            version: 1,
            export: repos,
            issue_prefix: repos,
            repo_sync: 1,
            ready: 1,
            search: 0,
        },
        sync_report: Some(report),
    }
}

/// What the middle value is: no more than half of the values lie below it, and
/// more than half do not exceed it.
pub proof fn law_the_median_parts_the_values_in_half(values: Seq<u128>, x: u128)
    requires
        values.len() > 0,
        ranked(values, median_index(values.len()), x),
    ensures
        values.contains(x),
        2 * below(values, x as int) <= values.len(),
        2 * below(values, x + 1) > values.len(),
{
    law_a_rank_has_one_value(values, median_index(values.len()), x, x);
}

/// What the high value is: at least 95 of 100 values do not exceed it, and fewer
/// lie below it, so that no smaller value will do.
pub proof fn law_the_high_value_covers_95_of_100(values: Seq<u128>, x: u128)
    requires
        values.len() > 0,
        ranked(values, percentile_95_index(values.len()), x),
    ensures
        values.contains(x),
        100 * below(values, x + 1) >= 95 * values.len(),
        100 * below(values, x as int) < 95 * values.len(),
{
    law_a_rank_has_one_value(values, percentile_95_index(values.len()), x, x);
}

/// The time of a part is that part's own, in whole microseconds.
pub proof fn law_each_part_has_its_own_time(samples: Seq<PipelineMetrics>, i: int)
    requires
        0 <= i < samples.len(),
    ensures
        micros_of(samples, Measured::Total).len() == samples.len(),
        0 <= samples[i].total - 1000 * micros_of(samples, Measured::Total)[i] < 1000,
        0 <= samples[i].version - 1000 * micros_of(samples, Measured::Version)[i] < 1000,
        0 <= samples[i].reconcile - 1000 * micros_of(samples, Measured::Reconcile)[i] < 1000,
        0 <= samples[i].source_wall - 1000 * micros_of(samples, Measured::Source)[i] < 1000,
        0 <= samples[i].sync - 1000 * micros_of(samples, Measured::Sync)[i] < 1000,
        0 <= samples[i].ready - 1000 * micros_of(samples, Measured::Ready)[i] < 1000,
{
}

/// The middle value that is recorded for a part is the middle of what that part
/// took: no more than half of the runs took less, and more than half no more.
pub proof fn law_a_recorded_median_is_of_its_part(
    samples: Seq<PipelineMetrics>,
    part: Measured,
    x: u128,
)
    requires
        samples.len() > 0,
        is_median(samples, part, x),
    ensures
        micros_of(samples, part).contains(x),
        2 * below(micros_of(samples, part), x as int) <= samples.len(),
        2 * below(micros_of(samples, part), x + 1) > samples.len(),
{
    law_the_median_parts_the_values_in_half(micros_of(samples, part), x);
}

} // verus!
