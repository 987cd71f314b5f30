use fbd::bd::Issue;
use fbd::cache::{
    clear, load, lock_path, save, save_dir_created, save_locked, save_read, save_replaced,
    start_save, temp_path, CacheFile, SaveStep, MAX_AGE,
};
use fbd::config::{Config, RepoEntry};
use fbd::io::{IoFailure, IoKind};
use fbd::path::FsPath;
use fbd::refresh::AttributionGeneration;
use fbd::snapshot::{Row, Snapshot};
use fbd::time::Timestamp;

fn snapshot_at(fetched_at: Timestamp) -> Snapshot {
    Snapshot {
        rows: vec![Row {
            issue: Issue {
                id: "ra-1".into(),
                title: "t".into(),
                status: "open".into(),
                priority: 1,
                description: None,
                issue_type: None,
                owner: None,
                labels: Vec::new(),
                created_at: None,
                created_by: None,
                updated_at: None,
                dependency_count: None,
                dependent_count: None,
                comment_count: None,
            },
            repo_id: None,
            repo_name: "repo-a".into(),
            attribution_generation: None,
        }],
        fetched_at,
    }
}

fn at(secs: i64) -> Timestamp {
    Timestamp::from_unix(secs, 0)
}

fn roster(paths: &[&str]) -> Config {
    Config {
        repos: paths.iter().map(|p| RepoEntry { path: FsPath::new(p) }).collect(),
    }
}

fn max_age_secs() -> i64 {
    (MAX_AGE / 1_000_000_000) as i64
}

#[test]
fn round_trips_a_fresh_snapshot() {
    let snapshot = snapshot_at(at(1_000_000));
    let roster = roster(&["/dev/repo-a"]);

    let written = save(&None, &snapshot, &roster);
    let loaded = load(written, at(1_000_000 + 60), &roster).expect("fresh load");

    assert_eq!(loaded, snapshot);
}

#[test]
fn rejects_a_snapshot_older_than_max_age() {
    let snapshot = snapshot_at(at(1_000_000));
    let roster = roster(&["/dev/repo-a"]);
    let written = || save(&None, &snapshot, &roster);

    let just_stale = at(1_000_000 + max_age_secs() + 1);
    assert!(load(written(), just_stale, &roster).is_none(), "past MAX_AGE is a miss");

    let just_fresh = at(1_000_000 + max_age_secs());
    assert!(load(written(), just_fresh, &roster).is_some(), "exactly MAX_AGE is a hit");

    let one_nano_late = Timestamp::from_unix(1_000_000 + max_age_secs(), 1);
    assert!(load(written(), one_nano_late, &roster).is_none());
}

#[test]
fn rejects_a_fetched_at_in_the_future() {
    // Clock skew (or a corrupted timestamp) should not be trusted as fresh.
    let snapshot = snapshot_at(at(1_000_000));
    let roster = roster(&["/dev/repo-a"]);
    let written = save(&None, &snapshot, &roster);

    assert!(load(written, at(999_999), &roster).is_none());
}

#[test]
fn rejects_a_cache_written_under_a_different_roster() {
    // A `repos add`/`remove` between the write and the load must miss,
    // so a launch never shows rows from a repo the roster no longer has.
    let snapshot = snapshot_at(at(1_000_000));
    let written = || save(&None, &snapshot, &roster(&["/dev/repo-a"]));

    let now = at(1_000_000 + 60);
    assert!(
        load(written(), now, &roster(&["/dev/repo-a", "/dev/repo-b"])).is_none(),
        "an added repo invalidates the cache"
    );
    assert!(
        load(written(), now, &roster(&["/dev/repo-b"])).is_none(),
        "a swapped repo invalidates the cache"
    );
    assert!(
        load(written(), now, &roster(&["/dev/repo-a"])).is_some(),
        "an unchanged roster still hits"
    );
}

#[test]
fn missing_file_is_a_silent_miss() {
    assert!(load(None, at(0), &roster(&["/dev/repo-a"])).is_none());
}

#[test]
fn save_never_regresses_a_newer_cache() {
    // Simulates two instances whose syncs finish in one order but whose
    // (lock-free) `bd ready` reads and cache writes land in the other: the
    // older snapshot's write must not clobber the newer one.
    let roster = roster(&["/dev/repo-a"]);
    let newer = snapshot_at(at(2_000_000));
    let older = snapshot_at(at(1_000_000));

    let on_disk: Option<CacheFile> = save(&None, &newer, &roster);
    assert!(save(&on_disk, &older, &roster).is_none(), "nothing is written");

    let on_disk = load(on_disk, at(2_000_000), &roster).expect("still a hit");
    assert_eq!(on_disk, newer, "the older write did not overwrite the newer cache");
}

#[test]
fn clear_removes_an_existing_cache_file() {
    clear(Ok(())).expect("clear ok");
}

#[test]
fn clear_is_a_silent_no_op_when_the_file_is_missing() {
    let missing = IoFailure { kind: IoKind::NotFound, message: "gone".into() };
    clear(Err(missing)).expect("missing file is not an error");
    let denied = IoFailure { kind: IoKind::Other, message: "denied".into() };
    assert_eq!(clear(Err(denied.clone())), Err(denied));
}

#[test]
fn the_write_goes_through_siblings_of_the_cache_file() {
    let cache = FsPath::new("/data/hank/snapshot_cache.json");
    let temp = temp_path(&cache, 42);
    assert_ne!(temp, cache);
    assert_eq!(temp.parent(), cache.parent());
    assert!(temp.display().ends_with(".tmp.42"));
    let lock = lock_path(&cache);
    assert_ne!(lock, cache);
    assert_ne!(lock, temp);
    assert_eq!(lock.parent(), cache.parent());
}

#[test]
fn only_newer_data_is_written() {
    let roster = roster(&["/dev/repo-a"]);
    let first = save(&None, &snapshot_at(at(5)), &roster);
    let equal = save(&first, &snapshot_at(at(5)), &roster);
    let newer = save(&first, &snapshot_at(at(6)), &roster);
    assert_eq!(newer.expect("a newer snapshot is written").snapshot, snapshot_at(at(6)));
    assert!(equal.is_none(), "data that is as new is kept");
}

#[test]
fn a_cached_row_claims_no_attribution_generation() {
    let roster = roster(&["/dev/repo-a"]);
    let mut live = snapshot_at(at(5));
    live.rows[0].attribution_generation = Some(AttributionGeneration::new(3));
    let cached = load(save(&None, &live, &roster), at(6), &roster).expect("a hit");
    assert_eq!(cached, snapshot_at(at(5)), "every other field is kept");
}

#[test]
fn the_first_of_the_newest_stays() {
    let mut held: Option<CacheFile> = None;
    for (secs, name) in [(10, "/a"), (30, "/b"), (30, "/c"), (20, "/d")] {
        if let Some(entry) = save(&held, &snapshot_at(at(secs)), &roster(&[name])) {
            held = Some(entry);
        }
    }
    let held = held.expect("something was saved");
    assert_eq!(held.snapshot.fetched_at, at(30));
    assert_eq!(held.roster, roster(&["/b"]));
}

#[test]
fn a_save_locks_before_it_reads_and_writes_only_newer_data() {
    let path = FsPath::new("/data/hank/snapshot_cache.json");
    let list = roster(&["/dev/repo-a"]);
    let full = || IoFailure { kind: IoKind::Other, message: "disk full".into() };

    assert_eq!(start_save(&path), SaveStep::CreateDir { dir: FsPath::new("/data/hank") });
    let lock = SaveStep::Lock { file: lock_path(&path) };
    assert_eq!(save_dir_created(&path, Ok(())), lock);
    let bare = FsPath::new("cache.json");
    assert_eq!(start_save(&bare), SaveStep::Lock { file: lock_path(&bare) });
    assert_eq!(save_locked(Ok(())), SaveStep::Read);

    let step = save_read(&path, 42, &None, &snapshot_at(at(5)), &list);
    let SaveStep::Replace { entry, temp, path: target } = step else {
        panic!("{step:?}");
    };
    assert_eq!(entry.snapshot, snapshot_at(at(5)));
    assert_eq!((&temp, &target), (&temp_path(&path, 42), &path));
    assert_eq!(save_replaced(Ok(())), SaveStep::Done);
    let held = Some(entry);
    assert_eq!(save_read(&path, 42, &held, &snapshot_at(at(5)), &list), SaveStep::Done);

    for failed in [
        save_dir_created(&path, Err(full())),
        save_locked(Err(full())),
        save_replaced(Err(full())),
    ] {
        assert_eq!(failed, SaveStep::Failed { failure: full() });
    }
}
