use fbd::bd::RepoSyncReport;
use fbd::measure::{
    baseline_iteration, median, percentile_95, record_stage, PartTimes, SAMPLES, WARMUPS,
};
use fbd::runtime::{OperationCounts, PipelineMetrics};

#[test]
fn the_median_is_the_upper_middle_value() {
    assert_eq!(median(&[7]), 7);
    assert_eq!(median(&[9, 1, 5]), 5);
    assert_eq!(median(&[4, 1, 3, 2]), 3);
    assert_eq!(median(&[2, 2, 1, 2]), 2);
}

#[test]
fn the_high_value_covers_95_of_100() {
    assert_eq!(percentile_95(&[7]), 7);
    assert_eq!(percentile_95(&[3, 1, 2]), 3);
    let ten: Vec<u128> = (1..=10).rev().collect();
    assert_eq!(percentile_95(&ten), 10);
    let twenty: Vec<u128> = (1..=20).collect();
    assert_eq!(percentile_95(&twenty), 19);
    let hundred: Vec<u128> = (1..=100).rev().collect();
    assert_eq!(percentile_95(&hundred), 95);
}

#[test]
fn the_order_of_a_series_does_not_matter() {
    assert_eq!(median(&[5, 3, 8, 1]), median(&[1, 8, 3, 5]));
    assert_eq!(percentile_95(&[5, 3, 8, 1]), percentile_95(&[1, 8, 3, 5]));
}

fn report(output: &str) -> RepoSyncReport {
    RepoSyncReport { output: output.into() }
}

#[test]
fn a_baseline_run_calls_bd_for_each_repository() {
    let times =
        PartTimes { total: 21, version: 1, reconcile: 2, source_wall: 3, sync: 4, ready: 5 };
    let metrics = baseline_iteration(times, 5, report("synced"));
    assert_eq!(
        metrics,
        PipelineMetrics {
            total: 21,
            version: 1,
            reconcile: 2,
            source_wall: 3,
            sync: 4,
            ready: 5,
            calls: OperationCounts {
                version: 1,
                export: 5,
                issue_prefix: 5,
                repo_sync: 1,
                ready: 1,
                search: 0,
            },
            sync_report: Some(report("synced")),
        }
    );
}

#[test]
fn a_record_holds_medians_in_microseconds_and_the_last_calls() {
    let samples: Vec<PipelineMetrics> = [30u64, 10, 20]
        .iter()
        .map(|n| {
            let times = PartTimes {
                total: n * 1000 + 999,
                version: n * 1_001,
                reconcile: n * 2_000,
                source_wall: n * 3_000,
                sync: n * 4_000,
                ready: n * 5_000,
            };
            baseline_iteration(times, *n as usize, report(&format!("run {n}")))
        })
        .collect();

    let record = record_stage("baseline_direct_serial", 5, &samples);

    assert_eq!(record.stage, "baseline_direct_serial");
    assert_eq!((record.roster_size, record.samples), (5, 3));
    assert_eq!((record.total_median, record.total_p95), (20, 30));
    assert_eq!(record.version_median, 20);
    assert_eq!(record.reconcile_median, 40);
    assert_eq!(record.source_median, 60);
    assert_eq!(record.sync_median, 80);
    assert_eq!(record.ready_median, 100);
    assert_eq!(record.calls.export, 20);
    assert_eq!(record.sync_report, Some(report("run 20")));
}

#[test]
fn a_series_is_ten_runs_after_two() {
    assert_eq!((WARMUPS, SAMPLES), (2, 10));
}
