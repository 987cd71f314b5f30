use std::collections::BTreeMap;

use fbd::bd::{BdClient, BdError, BdErrorKind, BdVersion, Issue, IssueDetail, RepoSyncReport};
use fbd::config::RepoEntry;
use fbd::path::FsPath;
use fbd::refresh::{AttributionGeneration, PrefixMap};
use fbd::snapshot::{
    attribute, attribute_with_generation, basename, comes_before, fetch, Row, Snapshot,
    UNKNOWN_REPO,
};
use fbd::time::Timestamp;

/// A client that only answers `ready`.
struct ReadyOnly {
    ready: Result<Vec<Issue>, BdError>,
}

impl ReadyOnly {
    fn with_ready(issues: Vec<Issue>) -> Self {
        ReadyOnly { ready: Ok(issues) }
    }

    fn with_ready_err(error: BdError) -> Self {
        ReadyOnly { ready: Err(error) }
    }
}

impl BdClient for ReadyOnly {
    fn version(&self) -> Result<BdVersion, BdError> {
        unreachable!()
    }
    fn init(&self, _: &FsPath, _: &str) -> Result<(), BdError> {
        unreachable!()
    }
    fn repo_add(&self, _: &FsPath, _: &FsPath) -> Result<(), BdError> {
        unreachable!()
    }
    fn export(&self, _: &FsPath) -> Result<(), BdError> {
        unreachable!()
    }
    fn export_to(&self, _: &FsPath, _: &FsPath) -> Result<(), BdError> {
        unreachable!()
    }
    fn issue_prefix(&self, _: &FsPath) -> Result<String, BdError> {
        unreachable!()
    }
    fn repo_sync(&self, _: &FsPath) -> Result<RepoSyncReport, BdError> {
        unreachable!()
    }
    fn ready(&self, hub: &FsPath) -> Result<Vec<Issue>, BdError> {
        assert_eq!(hub, &FsPath::new("/hub"));
        self.ready.clone()
    }
    fn show(&self, _: &FsPath, _: &str) -> Result<IssueDetail, BdError> {
        unreachable!()
    }
    fn search(&self, _: &FsPath, _: &str) -> Result<Vec<Issue>, BdError> {
        unreachable!()
    }
}

/// Two ready issues of one repository.
fn ready_fixture() -> Vec<Issue> {
    vec![
        issue("ra-z70", 0, Some("2026-07-11T12:41:25Z")),
        issue("ra-shr", 1, Some("2026-07-11T12:41:24Z")),
    ]
}

/// A `PrefixMap` from `(prefix, repo_path)` pairs.
fn prefix_map(pairs: &[(&str, &str)]) -> PrefixMap {
    PrefixMap::from_pairs(
        pairs
            .iter()
            .map(|(prefix, path)| {
                (
                    (*prefix).to_string(),
                    RepoEntry {
                        path: FsPath::new(path),
                    },
                )
            })
            .collect(),
    )
}

/// A minimal issue with a chosen id, priority, and `updated_at`.
fn issue(id: &str, priority: i64, updated_at: Option<&str>) -> Issue {
    Issue {
        id: id.to_string(),
        title: format!("title {id}"),
        status: "open".into(),
        priority,
        description: None,
        issue_type: None,
        owner: None,
        labels: Vec::new(),
        created_at: None,
        created_by: None,
        updated_at: updated_at.map(str::to_string),
        dependency_count: None,
        dependent_count: None,
        comment_count: None,
    }
}

fn at(secs: i64) -> Timestamp {
    Timestamp::from_unix(secs, 0)
}

#[test]
fn merges_ready_with_attribution() {
    let bd = ReadyOnly::with_ready(ready_fixture());
    let map = prefix_map(&[("ra", "/dev/session-tui")]);
    let when = at(1_700_000_000);

    let snap = fetch(&bd, &FsPath::new("/hub"), &map, when).expect("fetch ok");

    assert_eq!(snap.fetched_at, when, "fetch time is the injected instant");
    assert_eq!(snap.rows.len(), 2, "both ready issues become rows");
    let ids: Vec<&str> = snap.rows.iter().map(|r| r.issue.id.as_str()).collect();
    assert_eq!(ids, vec!["ra-z70", "ra-shr"], "fixture ids preserved");
    assert!(
        snap.rows.iter().all(|r| r.repo_name == "session-tui"),
        "every ra-* row is attributed to the repo basename: {:?}",
        snap.rows.iter().map(|r| &r.repo_name).collect::<Vec<_>>()
    );
}

#[test]
fn sorts_by_priority_then_updated() {
    // Scrambled input the fixture can't express: a P0 between two P1s whose
    // updated_at differ, so both sort keys are exercised.
    let issues = vec![
        issue("rb-old", 1, Some("2026-07-11T12:41:25Z")),
        issue("rb-p0", 0, Some("2026-07-11T12:41:26Z")),
        issue("rb-new", 1, Some("2026-07-11T12:41:27Z")),
    ];
    let bd = ReadyOnly::with_ready(issues);
    let map = prefix_map(&[("rb", "/dev/repo-b")]);

    let snap = fetch(&bd, &FsPath::new("/hub"), &map, at(0)).expect("fetch ok");

    let order: Vec<&str> = snap.rows.iter().map(|r| r.issue.id.as_str()).collect();
    assert_eq!(
        order,
        vec!["rb-p0", "rb-new", "rb-old"],
        "P0 first, then P1s newest-updated first"
    );
}

#[test]
fn groups_by_repo() {
    let issues = vec![
        issue("ra-1", 1, Some("2026-07-11T00:00:01Z")),
        issue("rb-1", 1, Some("2026-07-11T00:00:02Z")),
        issue("ra-2", 2, Some("2026-07-11T00:00:03Z")),
    ];
    let bd = ReadyOnly::with_ready(issues);
    let map = prefix_map(&[("ra", "/dev/repo-a"), ("rb", "/dev/repo-b")]);

    let snap = fetch(&bd, &FsPath::new("/hub"), &map, at(0)).expect("fetch ok");

    // Grouping is a view concern; the data to group by lives on each row.
    let mut groups: BTreeMap<&str, Vec<&str>> = BTreeMap::new();
    for row in &snap.rows {
        groups
            .entry(row.repo_name.as_str())
            .or_default()
            .push(row.issue.id.as_str());
    }
    assert_eq!(groups.get("repo-a"), Some(&vec!["ra-1", "ra-2"]));
    assert_eq!(groups.get("repo-b"), Some(&vec!["rb-1"]));
    assert_eq!(groups.len(), 2, "exactly two repo groups: {groups:?}");
}

#[test]
fn unattributed_goes_to_unknown_bucket() {
    let issues = vec![
        issue("ra-1", 1, Some("2026-07-11T00:00:01Z")),
        issue("zz-999", 1, Some("2026-07-11T00:00:02Z")),
    ];
    let bd = ReadyOnly::with_ready(issues);
    let map = prefix_map(&[("ra", "/dev/repo-a")]);

    let snap = fetch(&bd, &FsPath::new("/hub"), &map, at(0)).expect("fetch ok");

    let unknown = snap
        .rows
        .iter()
        .find(|r| r.issue.id == "zz-999")
        .expect("unattributed row present");
    assert_eq!(
        unknown.repo_name, UNKNOWN_REPO,
        "no prefix -> unknown bucket"
    );
    let attributed = snap
        .rows
        .iter()
        .find(|r| r.issue.id == "ra-1")
        .expect("attributed row present");
    assert_eq!(attributed.repo_name, "repo-a", "attributed row unaffected");
}

#[test]
fn disambiguates_duplicate_basenames() {
    // Two distinct repos that share the directory name `api`.
    let issues = vec![
        issue("ra-1", 1, Some("2026-07-11T00:00:01Z")),
        issue("rb-1", 1, Some("2026-07-11T00:00:02Z")),
    ];
    let bd = ReadyOnly::with_ready(issues);
    let map = prefix_map(&[("ra", "/work/a/api"), ("rb", "/work/b/api")]);

    let snap = fetch(&bd, &FsPath::new("/hub"), &map, at(0)).expect("fetch ok");

    let name = |id: &str| {
        snap.rows
            .iter()
            .find(|r| r.issue.id == id)
            .map(|r| r.repo_name.as_str())
            .expect("row present")
    };
    // The shared basename is ambiguous, so each is disambiguated by its
    // unique prefix — no filesystem path leaks — and grouping by repo_name
    // keeps the two repos distinct.
    assert_eq!(name("ra-1"), "api (ra)");
    assert_eq!(name("rb-1"), "api (rb)");
    assert!(
        !name("ra-1").contains('/') && !name("rb-1").contains('/'),
        "display labels never contain a filesystem path"
    );
}

#[test]
fn attribute_is_shared_by_fetch() {
    // The pure `attribute` core produces the same rows/order/attribution
    // `fetch` does, so cross-repo search can reuse it directly.
    let issues = vec![
        issue("ra-2", 2, Some("2026-07-11T00:00:03Z")),
        issue("rb-1", 0, Some("2026-07-11T00:00:02Z")),
        issue("ra-1", 1, Some("2026-07-11T00:00:01Z")),
    ];
    let map = prefix_map(&[("ra", "/dev/repo-a"), ("rb", "/dev/repo-b")]);
    let when = at(1_700_000_000);

    // Direct call — no bd, purely from the issue list.
    let direct = attribute(issues.clone(), &map, when);
    // Via fetch (which reads the same issues from `bd ready`).
    let bd = ReadyOnly::with_ready(issues);
    let via_fetch = fetch(&bd, &FsPath::new("/hub"), &map, when).expect("fetch ok");

    assert_eq!(direct, via_fetch, "fetch delegates to attribute");
    let order: Vec<&str> = direct.rows.iter().map(|r| r.issue.id.as_str()).collect();
    assert_eq!(
        order,
        vec!["rb-1", "ra-1", "ra-2"],
        "priority-then-updated sort"
    );
    assert_eq!(
        direct.rows[0].repo_name, "repo-b",
        "attribution carried through"
    );
}

#[test]
fn ready_error_propagates() {
    let bd = ReadyOnly::with_ready_err(BdError {
        command: "bd -C /hub ready --json".into(),
        stderr: "boom".into(),
        kind: BdErrorKind::NonZeroExit { code: Some(1) },
    });
    let map = prefix_map(&[("ra", "/dev/repo-a")]);

    let err = fetch(&bd, &FsPath::new("/hub"), &map, at(0)).expect_err("ready failure propagates");
    assert!(matches!(
        err.kind,
        BdErrorKind::NonZeroExit { code: Some(1) }
    ));
}

#[test]
fn sorting_keeps_rows_and_breaks_ties_by_id() {
    let map = PrefixMap::default();
    let issues = vec![
        issue("b", 1, None),
        issue("a", 1, None),
        issue("c", 1, Some("2026-01-01T00:00:00Z")),
        issue("a", 1, None),
    ];
    let snap = attribute(issues, &map, at(0));
    let order: Vec<&str> = snap.rows.iter().map(|r| r.issue.id.as_str()).collect();
    assert_eq!(order, vec!["c", "a", "a", "b"], "every row is kept, a missing time comes last");
    assert!(comes_before(&issue("a", 1, None), &issue("b", 1, None)));
    assert!(!comes_before(&issue("a", 1, None), &issue("a", 1, None)));
    assert!(!comes_before(&issue("a", 2, None), &issue("b", 1, None)));
}

#[test]
fn attribution_can_carry_a_generation() {
    let map = prefix_map(&[("ra", "/dev/repo-a")]);
    let generation = AttributionGeneration::new(7);
    let snap: Snapshot =
        attribute_with_generation(vec![issue("ra-1", 1, None)], &map, at(3), generation);
    assert_eq!(
        snap.rows,
        vec![Row {
            issue: issue("ra-1", 1, None),
            repo_id: Some("ra".into()),
            repo_name: "repo-a".into(),
            attribution_generation: Some(generation),
        }]
    );
    let plain = attribute(vec![issue("ra-1", 1, None)], &map, at(3));
    assert_eq!(plain.rows[0].attribution_generation, None);
}

#[test]
fn a_path_without_a_last_component_is_its_own_name() {
    assert_eq!(basename(&FsPath::new("/work/api/")), "api");
    assert_eq!(basename(&FsPath::new("/")), "/");
    assert_eq!(basename(&FsPath::new("..")), "..");
}

#[test]
fn the_order_of_issues_does_not_matter() {
    let map = prefix_map(&[("ra", "/x/api"), ("rb", "/y/api")]);
    let issues = [
        issue("ra-1", 1, Some("2026-07-01T00:00:00Z")),
        issue("rb-1", 1, None),
        issue("ra-2", 0, None),
        issue("rc-1", 1, Some("2026-07-02T00:00:00Z")),
    ];
    let pick = |order: [usize; 4]| order.iter().map(|i| issues[*i].clone()).collect::<Vec<_>>();
    let one = attribute(pick([0, 1, 2, 3]), &map, at(1));
    let two = attribute(pick([3, 1, 0, 2]), &map, at(1));
    assert_eq!(one, two);
    let ids: Vec<&str> = one.rows.iter().map(|r| r.issue.id.as_str()).collect();
    assert_eq!(ids, ["ra-2", "rc-1", "ra-1", "rb-1"]);
    assert_eq!(one.rows[2].repo_name, "api (ra)");
}
