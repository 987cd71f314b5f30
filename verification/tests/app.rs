use fbd::app::{
    App, DetailState, Effect, FilterSet, InputContext, Msg, PriorityFilter, RepoFilter, SearchPhase,
    ViewMode,
};
use fbd::bd::{Dependency, Issue, IssueDetail};
use fbd::refresh::AttributionGeneration;
use fbd::snapshot::{Row, Snapshot};
use fbd::time::Timestamp;

fn row(repo: &str, id: &str, priority: i64) -> Row {
    Row {
        issue: Issue {
            id: id.to_string(),
            title: format!("title {id}"),
            status: "open".into(),
            priority,
            description: None,
            issue_type: None,
            owner: None,
            labels: Vec::new(),
            created_at: None,
            created_by: None,
            updated_at: None,
            dependency_count: None,
            dependent_count: None,
            comment_count: None,
        },
        repo_id: None,
        repo_name: repo.to_string(),
        attribution_generation: None,
    }
}

fn snapshot(rows: Vec<Row>) -> Snapshot {
    Snapshot {
        rows,
        fetched_at: Timestamp::from_unix(1_700_000_000, 0),
    }
}

/// A successful refresh completion carrying `rows` and no warnings.
fn completed(rows: Vec<Row>) -> Msg {
    Msg::RefreshCompleted {
        snapshot: Some(snapshot(rows)),
        warnings: Vec::new(),
    }
}

/// An app advanced to `List` with the given rows via a `RefreshCompleted`.
fn app_with(rows: Vec<Row>) -> App {
    let mut app = App::new();
    app.reduce(completed(rows));
    app
}

fn ids(rows: &[&Row]) -> Vec<String> {
    rows.iter().map(|r| r.issue.id.clone()).collect()
}

/// A boxed [`IssueDetail`] for `id` carrying `deps` blockers (boxed to match
/// [`Msg::DetailReady`]'s payload).
fn detail(id: &str, deps: Vec<Dependency>) -> Box<IssueDetail> {
    Box::new(IssueDetail {
        issue: Issue {
            id: id.to_string(),
            title: format!("title {id}"),
            status: "open".into(),
            priority: 2,
            description: Some("a description".into()),
            issue_type: Some("task".into()),
            owner: None,
            labels: Vec::new(),
            created_at: None,
            created_by: None,
            updated_at: None,
            dependency_count: Some(deps.len() as i64),
            dependent_count: None,
            comment_count: Some(0),
        },
        dependencies: deps,
    })
}

fn blocker(id: &str) -> Dependency {
    Dependency {
        id: id.to_string(),
        title: Some(format!("blocker {id}")),
        status: Some("open".into()),
        dependency_type: Some("blocks".into()),
    }
}

#[test]
fn enter_requests_detail() {
    let mut app = app_with(vec![row("ra", "ra-1", 1)]);
    assert_eq!(app.view_mode(), ViewMode::List);

    let effects = app.reduce(Msg::OpenDetail);
    assert_eq!(effects, vec![Effect::FetchDetail("ra-1".into())]);
    assert_eq!(app.view_mode(), ViewMode::Detail);
    assert!(
        matches!(app.detail(), Some(DetailState::Loading { id }) if id == "ra-1"),
        "the pane is loading the selected id: {:?}",
        app.detail()
    );
}

#[test]
fn cursor_movement_does_not_fetch() {
    // Browsing the list must make zero bd calls (no FetchDetail effect).
    let mut app = app_with(vec![row("ra", "ra-1", 1), row("ra", "ra-2", 1)]);
    assert_eq!(app.reduce(Msg::SelectNext), Vec::new());
    assert_eq!(app.reduce(Msg::SelectPrev), Vec::new());
    assert_eq!(app.view_mode(), ViewMode::List, "still browsing the list");
}

#[test]
fn open_detail_noop_on_empty_list() {
    // No selected row: Enter cannot open a detail and emits no effect.
    let mut app = app_with(vec![]);
    assert_eq!(app.selected_row(), None);
    assert_eq!(app.reduce(Msg::OpenDetail), Vec::new());
    assert_eq!(app.view_mode(), ViewMode::List);
    assert!(app.detail().is_none());
}

#[test]
fn detail_ready_stores_for_matching_id() {
    let mut app = app_with(vec![row("ra", "ra-1", 1)]);
    app.reduce(Msg::OpenDetail);

    app.reduce(Msg::DetailReady {
        id: "ra-1".into(),
        detail: Ok(detail("ra-1", vec![blocker("ra-z70")])),
    });
    match app.detail() {
        Some(DetailState::Loaded(d)) => {
            assert_eq!(d.issue.id, "ra-1");
            assert_eq!(d.dependencies.len(), 1);
            assert_eq!(d.dependencies[0].id, "ra-z70");
        }
        other => panic!("expected Loaded, got {other:?}"),
    }
}

#[test]
fn stale_detail_response_is_dropped() {
    let mut app = app_with(vec![row("ra", "ra-1", 1), row("ra", "ra-2", 1)]);
    app.reduce(Msg::OpenDetail); // bound to ra-1

    // A response for a different id is dropped, leaving the pane loading ra-1.
    app.reduce(Msg::DetailReady {
        id: "ra-2".into(),
        detail: Ok(detail("ra-2", vec![])),
    });
    assert!(
        matches!(app.detail(), Some(DetailState::Loading { id }) if id == "ra-1"),
        "a mismatched response is dropped: {:?}",
        app.detail()
    );

    // Enter ra-1 → Esc → Enter ra-2, then ra-1's late response is dropped.
    app.reduce(Msg::Back);
    app.reduce(Msg::SelectNext);
    app.reduce(Msg::OpenDetail); // now bound to ra-2
    app.reduce(Msg::DetailReady {
        id: "ra-1".into(),
        detail: Ok(detail("ra-1", vec![])),
    });
    assert!(
        matches!(app.detail(), Some(DetailState::Loading { id }) if id == "ra-2"),
        "a superseded id's late response is dropped: {:?}",
        app.detail()
    );
}

#[test]
fn detail_fetch_error_shows_message() {
    let mut app = app_with(vec![row("ra", "ra-1", 1)]);
    app.reduce(Msg::OpenDetail);

    app.reduce(Msg::DetailReady {
        id: "ra-1".into(),
        detail: Err("bd show failed: boom".into()),
    });
    match app.detail() {
        Some(DetailState::Error { id, message }) => {
            assert_eq!(id, "ra-1");
            assert!(message.contains("boom"), "message surfaced: {message}");
        }
        other => panic!("expected Error, got {other:?}"),
    }
    assert_eq!(app.view_mode(), ViewMode::Detail, "pane still open");
    assert_eq!(app.rows().len(), 1, "the list is intact behind the pane");
}

#[test]
fn esc_returns_to_list() {
    let mut app = app_with(vec![row("ra", "ra-1", 1), row("ra", "ra-2", 1)]);
    app.reduce(Msg::SelectNext); // selection = 1 -> ra-2
    assert_eq!(app.selection(), Some(1));
    app.reduce(Msg::OpenDetail);
    app.reduce(Msg::DetailReady {
        id: "ra-2".into(),
        detail: Ok(detail("ra-2", vec![])),
    });

    app.reduce(Msg::Back);
    assert_eq!(app.view_mode(), ViewMode::List);
    assert!(app.detail().is_none());
    assert_eq!(
        app.selection(),
        Some(1),
        "selection preserved across detail"
    );
}

#[test]
fn navigation_inert_while_detail_open() {
    // With the pane open, j/k/f/p must not move the underlying selection —
    // otherwise Esc would return to a different row than it was opened from.
    let mut app = app_with(vec![row("ra", "ra-1", 1), row("ra", "ra-2", 1)]);
    app.reduce(Msg::OpenDetail); // Detail, bound to ra-1, selection 0

    app.reduce(Msg::SelectNext);
    app.reduce(Msg::CycleRepoFilter);
    app.reduce(Msg::TogglePriorityFilter);
    assert_eq!(app.selection(), Some(0), "selection frozen under the pane");
    assert_eq!(app.filter().repo(), &RepoFilter::All, "filters frozen too");

    app.reduce(Msg::Back);
    assert_eq!(app.selection(), Some(0), "returns to the original row");
}

#[test]
fn refresh_under_detail_keeps_pane() {
    // A background refresh must not slam the open detail pane shut.
    let mut app = app_with(vec![row("ra", "ra-1", 1)]);
    app.reduce(Msg::OpenDetail);
    app.reduce(Msg::DetailReady {
        id: "ra-1".into(),
        detail: Ok(detail("ra-1", vec![])),
    });
    assert_eq!(app.view_mode(), ViewMode::Detail);

    app.reduce(completed(vec![row("ra", "ra-1", 1), row("ra", "ra-9", 2)]));
    assert_eq!(
        app.view_mode(),
        ViewMode::Detail,
        "the pane stays open across a refresh"
    );
    assert!(app.detail().is_some());
    assert_eq!(app.rows().len(), 2, "rows updated underneath the pane");
}

#[test]
fn starts_in_loading_then_shows_rows() {
    let mut app = App::new();
    assert_eq!(app.view_mode(), ViewMode::Loading);
    assert!(app.rows().is_empty());
    assert_eq!(app.selection(), None);
    assert!(!app.is_done());

    // A refresh begins before any data: still loading.
    app.reduce(Msg::RefreshStarted);
    assert_eq!(app.view_mode(), ViewMode::Loading, "no rows yet -> Loading");

    // First snapshot: rows appear, list shown, selection at the top.
    app.reduce(completed(vec![row("ra", "ra-1", 1), row("ra", "ra-2", 2)]));
    assert_eq!(app.view_mode(), ViewMode::List);
    assert_eq!(app.rows().len(), 2);
    assert_eq!(app.selection(), Some(0));
    assert!(!app.is_stale());
}

#[test]
fn selection_moves_and_clamps() {
    let mut app = app_with(vec![
        row("ra", "ra-1", 1),
        row("ra", "ra-2", 1),
        row("ra", "ra-3", 1),
    ]);

    assert_eq!(app.selection(), Some(0));
    app.reduce(Msg::SelectNext);
    assert_eq!(app.selection(), Some(1));
    app.reduce(Msg::SelectNext);
    assert_eq!(app.selection(), Some(2));
    // Clamps at the last row, never out of bounds.
    app.reduce(Msg::SelectNext);
    assert_eq!(app.selection(), Some(2));

    app.reduce(Msg::SelectPrev);
    assert_eq!(app.selection(), Some(1));
    app.reduce(Msg::SelectPrev);
    app.reduce(Msg::SelectPrev);
    assert_eq!(app.selection(), Some(0), "clamps at the first row");

    // Empty list: navigation is a safe no-op and nothing is selected.
    let mut empty = app_with(vec![]);
    assert_eq!(empty.selection(), None);
    empty.reduce(Msg::SelectNext);
    empty.reduce(Msg::SelectPrev);
    assert_eq!(empty.selection(), None);
    assert!(empty.selected_row().is_none());
}

#[test]
fn repo_filter_cycles() {
    // repo-a appears first, then repo-b.
    let mut app = app_with(vec![
        row("repo-a", "ra-1", 1),
        row("repo-a", "ra-2", 1),
        row("repo-b", "rb-1", 1),
    ]);
    assert_eq!(app.filtered_rows().len(), 3, "All: every row visible");

    app.reduce(Msg::CycleRepoFilter);
    assert_eq!(app.filter().repo(), &RepoFilter::Only("repo-a".into()));
    assert_eq!(ids(&app.filtered_rows()), vec!["ra-1", "ra-2"]);
    assert_eq!(app.selection(), Some(0), "selection stays valid");

    app.reduce(Msg::CycleRepoFilter);
    assert_eq!(app.filter().repo(), &RepoFilter::Only("repo-b".into()));
    assert_eq!(ids(&app.filtered_rows()), vec!["rb-1"]);

    app.reduce(Msg::CycleRepoFilter);
    assert_eq!(app.filter().repo(), &RepoFilter::All, "cycles back to All");
    assert_eq!(app.filtered_rows().len(), 3);
}

#[test]
fn priority_filter_toggles() {
    let mut app = app_with(vec![
        row("ra", "ra-0", 0),
        row("ra", "ra-1", 1),
        row("ra", "ra-2", 2),
        row("ra", "ra-3", 3),
    ]);
    assert_eq!(app.filtered_rows().len(), 4);

    app.reduce(Msg::TogglePriorityFilter);
    assert_eq!(app.filter().priority(), PriorityFilter::HighOnly);
    assert_eq!(
        ids(&app.filtered_rows()),
        vec!["ra-0", "ra-1"],
        "only P0/P1 visible"
    );

    app.reduce(Msg::TogglePriorityFilter);
    assert_eq!(app.filter().priority(), PriorityFilter::All);
    assert_eq!(app.filtered_rows().len(), 4, "toggles back to all");
}

#[test]
fn refresh_while_stale_keeps_rows() {
    let mut app = app_with(vec![row("ra", "ra-1", 1), row("ra", "ra-2", 1)]);
    app.reduce(Msg::SelectNext);
    assert_eq!(app.selection(), Some(1));

    app.reduce(Msg::RefreshStarted);
    assert_eq!(app.rows().len(), 2, "old rows stay visible during refresh");
    assert_eq!(app.selection(), Some(1), "selection preserved");
    assert_eq!(app.view_mode(), ViewMode::List);
    assert!(app.is_stale(), "stale flag set while refreshing");
}

#[test]
fn refresh_error_surfaces_in_status() {
    let mut app = app_with(vec![row("ra", "ra-1", 1)]);
    app.reduce(Msg::RefreshStarted);
    assert!(app.is_stale());

    // A refresh that succeeded but had per-repo trouble: the snapshot and its
    // warnings arrive together in one completion message.
    app.reduce(Msg::RefreshCompleted {
        snapshot: Some(snapshot(vec![row("ra", "ra-1", 1)])),
        warnings: vec![
            "export failed for repo-b".into(),
            "id prefix `dup` claimed by 2 repos".into(),
        ],
    });
    assert!(
        app.status_warnings()
            .iter()
            .any(|w| w.contains("export failed for repo-b")),
        "per-repo error surfaced: {:?}",
        app.status_warnings()
    );
    assert!(!app.is_stale(), "the refresh cycle concluded");
}

#[test]
fn fatal_refresh_keeps_rows_and_surfaces_warning() {
    // A refresh that failed outright: no snapshot, but the stale view is kept
    // and the error is surfaced.
    let mut app = app_with(vec![row("ra", "ra-1", 1), row("ra", "ra-2", 1)]);
    app.reduce(Msg::RefreshStarted);
    app.reduce(Msg::RefreshCompleted {
        snapshot: None,
        warnings: vec!["hub sync failed".into()],
    });
    assert_eq!(
        app.rows().len(),
        2,
        "last-good rows kept on a failed refresh"
    );
    assert_eq!(app.view_mode(), ViewMode::List);
    assert!(!app.is_stale(), "the failed cycle still concludes");
    assert!(app.status_warnings().iter().any(|w| w.contains("hub sync")));
}

#[test]
fn refresh_key_requests_refresh_effect() {
    let mut app = app_with(vec![row("ra", "ra-1", 1)]);
    let before = app.clone();

    let effects = app.reduce(Msg::Refresh);
    assert_eq!(effects, vec![Effect::Refresh]);
    // Marks the shown rows stale/in-flight, but touches nothing else: the
    // runtime spawns the worker.
    assert!(app.is_stale());
    assert_eq!(app.rows().len(), before.rows().len());
    assert_eq!(app.selection(), before.selection());
    assert_eq!(app.view_mode(), before.view_mode());
    assert!(!app.is_done());
}

#[test]
fn refresh_is_deduped_while_in_flight() {
    // A second `r` (or a key-repeat) while a refresh is pending must not spawn
    // an overlapping worker whose out-of-order completion could clobber a
    // newer snapshot.
    let mut app = app_with(vec![row("ra", "ra-1", 1)]);

    assert_eq!(app.reduce(Msg::Refresh), vec![Effect::Refresh]);
    assert_eq!(
        app.reduce(Msg::Refresh),
        Vec::new(),
        "no second effect while a refresh is in flight"
    );

    // Once the cycle concludes, a fresh request is honored again.
    app.reduce(completed(vec![row("ra", "ra-1", 1)]));
    assert!(!app.is_stale());
    assert_eq!(app.reduce(Msg::Refresh), vec![Effect::Refresh]);
}

#[test]
fn success_with_warnings_completes_atomically() {
    // Regression: a successful-with-warnings refresh must conclude in ONE
    // message. If it split into snapshot-then-warnings, an `r` in the gap
    // would slip past the dedup guard and the trailing warnings message would
    // then clear the *new* refresh's in-flight flag. Here the single
    // completion clears `stale` exactly once, and the interleaved second
    // refresh is a distinct, still-guarded cycle.
    let mut app = app_with(vec![row("ra", "ra-1", 1)]);

    assert_eq!(app.reduce(Msg::Refresh), vec![Effect::Refresh]);
    assert!(app.is_stale());
    // First cycle concludes atomically with a snapshot and warnings.
    app.reduce(Msg::RefreshCompleted {
        snapshot: Some(snapshot(vec![row("ra", "ra-2", 1)])),
        warnings: vec!["export failed for repo-b".into()],
    });
    assert!(!app.is_stale());
    assert_eq!(app.status_warnings().len(), 1);

    // A new refresh starts its own guarded cycle; no leftover completion
    // message from the first cycle exists to clear it.
    assert_eq!(app.reduce(Msg::Refresh), vec![Effect::Refresh]);
    assert!(app.is_stale());
    assert_eq!(
        app.reduce(Msg::Refresh),
        Vec::new(),
        "the second cycle is still deduped"
    );
}

#[test]
fn startup_refresh_holds_the_in_flight_slot() {
    // The runtime spawns an initial refresh at launch without going through
    // `Msg::Refresh`, so a brand-new app must already be in-flight: an `r`
    // that races the initial worker's `RefreshStarted` is deduped, not a
    // second worker.
    let mut app = App::new();
    assert!(app.is_stale(), "a fresh app is born in-flight");
    assert_eq!(
        app.reduce(Msg::Refresh),
        Vec::new(),
        "an immediate r is deduped against the startup refresh"
    );

    // When the initial refresh concludes, the slot frees and r works again.
    app.reduce(completed(vec![row("ra", "ra-1", 1)]));
    assert!(!app.is_stale());
    assert_eq!(app.reduce(Msg::Refresh), vec![Effect::Refresh]);
}

#[test]
fn quit_msg_sets_done() {
    let mut app = app_with(vec![row("ra", "ra-1", 1)]);
    assert!(!app.is_done());
    app.reduce(Msg::Quit);
    assert!(app.is_done());
}

#[test]
fn filters_persist_and_recompute_across_refresh() {
    let mut app = app_with(vec![row("repo-a", "ra-1", 1), row("repo-b", "rb-1", 1)]);
    app.reduce(Msg::CycleRepoFilter); // Only("repo-a")
    assert_eq!(app.filter().repo(), &RepoFilter::Only("repo-a".into()));

    // A new snapshot (different rows, still has repo-a) keeps the filter.
    app.reduce(completed(vec![
        row("repo-a", "ra-9", 1),
        row("repo-a", "ra-8", 2),
        row("repo-b", "rb-9", 1),
    ]));
    assert_eq!(
        app.filter().repo(),
        &RepoFilter::Only("repo-a".into()),
        "the active filter survives a refresh"
    );
    assert_eq!(ids(&app.filtered_rows()), vec!["ra-9", "ra-8"]);
    assert_eq!(app.selection(), Some(0), "selection valid after recompute");
}

#[test]
fn selection_invariant_holds_under_random_messages() {
    // A deterministic LCG (no rand dep) drives a long message sequence; after
    // every step the selection invariant must hold.
    let mut seed: u64 = 0x1234_5678_9abc_def0;
    let mut next = || {
        seed = seed
            .wrapping_mul(6364136223846793005)
            .wrapping_add(1442695040888963407);
        (seed >> 33) as u32
    };

    let sample_sets: Vec<Vec<Row>> = vec![
        vec![],
        vec![row("repo-a", "ra-1", 0)],
        vec![
            row("repo-a", "ra-1", 0),
            row("repo-a", "ra-2", 2),
            row("repo-b", "rb-1", 1),
            row("repo-b", "rb-2", 3),
        ],
        vec![row("repo-b", "rb-9", 1), row("repo-c", "rc-9", 2)],
    ];

    let mut app = App::new();
    for _ in 0..5_000 {
        let msg = match next() % 6 {
            0 => Msg::SelectNext,
            1 => Msg::SelectPrev,
            2 => Msg::CycleRepoFilter,
            3 => Msg::TogglePriorityFilter,
            4 => Msg::RefreshStarted,
            _ => {
                let set = &sample_sets[(next() as usize) % sample_sets.len()];
                completed(set.clone())
            }
        };
        app.reduce(msg);

        let visible = app.filtered_rows();
        match app.selection() {
            None => {
                assert!(visible.is_empty(), "no selection only when nothing visible");
                assert!(app.selected_row().is_none());
            }
            Some(i) => {
                assert!(
                    i < visible.len(),
                    "selection {i} within {} rows",
                    visible.len()
                );
                assert_eq!(
                    app.selected_row().map(|r| &r.issue.id),
                    Some(&visible[i].issue.id),
                    "selected_row agrees with the selection index"
                );
            }
        }
    }
}

/// A row with a prefix of its own.
fn prefixed(prefix: &str, name: &str, id: &str) -> Row {
    Row { repo_id: Some(prefix.to_string()), ..row(name, id, 1) }
}

/// Types a query and submits it; the token of the request.
fn search_for(app: &mut App, query: &str) -> u64 {
    app.reduce(Msg::OpenSearch);
    for c in query.chars() {
        app.reduce(Msg::SearchInput(c));
    }
    match app.reduce(Msg::SubmitSearch).as_slice() {
        [Effect::Search { query: asked, token }] => {
            assert_eq!(asked, query);
            *token
        }
        other => panic!("expected a search, got {other:?}"),
    }
}

#[test]
fn a_search_shows_its_own_results_and_drops_late_ones() {
    let mut app = app_with(vec![row("ra", "ra-1", 1)]);
    let first = search_for(&mut app, "one");
    assert_eq!(app.search_phase(), Some(&SearchPhase::Pending));
    app.reduce(Msg::Back);
    let second = search_for(&mut app, "two");
    assert_ne!(first, second);

    app.reduce(Msg::SearchResults { token: first, rows: Ok(vec![row("ra", "late", 1)]) });
    assert_eq!(app.search_phase(), Some(&SearchPhase::Pending), "a late answer is dropped");

    app.reduce(Msg::SearchResults {
        token: second,
        rows: Ok(vec![row("ra", "ra-8", 1), row("ra", "ra-9", 1)]),
    });
    assert_eq!(app.search_phase(), Some(&SearchPhase::Ready));
    assert_eq!(ids(&app.search_rows().unwrap()), vec!["ra-8", "ra-9"]);
    app.reduce(Msg::SelectNext);
    assert_eq!(app.search_selection(), Some(1));
    assert_eq!(app.selection(), Some(0), "the list behind keeps its selection");

    let effects = app.reduce(Msg::OpenDetail);
    assert_eq!(effects, vec![Effect::FetchDetail("ra-9".into())]);
    app.reduce(Msg::Back);
    assert_eq!(app.view_mode(), ViewMode::Search, "the results are still there");
    app.reduce(Msg::Back);
    assert_eq!(app.view_mode(), ViewMode::List);
    assert_eq!(app.search_query(), None);
}

#[test]
fn a_failed_search_says_so_and_a_blank_one_is_not_run() {
    let mut app = app_with(vec![]);
    app.reduce(Msg::OpenSearch);
    app.reduce(Msg::SearchInput(' '));
    assert_eq!(app.reduce(Msg::SubmitSearch), Vec::new());
    app.reduce(Msg::Back);
    let token = search_for(&mut app, "x");
    app.reduce(Msg::SearchResults { token, rows: Err("no hub".into()) });
    assert_eq!(app.search_phase(), Some(&SearchPhase::Failed("no hub".into())));
}

#[test]
fn backspace_undoes_typing() {
    let mut app = app_with(vec![]);
    app.reduce(Msg::OpenSearch);
    app.reduce(Msg::SearchInput('a'));
    app.reduce(Msg::SearchInput('é'));
    app.reduce(Msg::SearchBackspace);
    assert_eq!(app.search_query(), Some("a"));
    app.reduce(Msg::SearchBackspace);
    app.reduce(Msg::SearchBackspace);
    assert_eq!(app.search_query(), Some(""));
}

#[test]
fn a_cancelled_picker_changes_nothing_and_a_confirmed_one_applies() {
    let mut app = app_with(vec![
        prefixed("ra", "repo-a", "ra-1"),
        row("unknown", "zz-1", 1),
        prefixed("rb", "repo-b", "rb-1"),
    ]);
    app.reduce(Msg::OpenRepoPicker);
    assert_eq!(app.input_context(), InputContext::RepoPicker);
    let (options, pending) = app.picker().expect("an open picker");
    assert_eq!(
        options,
        &vec![
            RepoFilter::All,
            RepoFilter::Only("ra".into()),
            RepoFilter::Unknown,
            RepoFilter::Only("rb".into()),
        ]
    );
    assert_eq!(pending, 0, "the current choice is pending");
    app.reduce(Msg::RepoPickerPrev);
    assert_eq!(app.picker().unwrap().1, 0, "it stops at the ends");
    app.reduce(Msg::RepoPickerNext);
    app.reduce(Msg::Back);
    assert_eq!(app.picker(), None);
    assert_eq!(app.repo_view(), &RepoFilter::All);

    app.reduce(Msg::OpenRepoPicker);
    app.reduce(Msg::RepoPickerNext);
    app.reduce(Msg::RepoPickerNext);
    let effects = app.reduce(Msg::ConfirmRepoPicker);
    assert_eq!(effects, vec![Effect::PersistRepoView(RepoFilter::Unknown)]);
    assert_eq!(ids(&app.filtered_rows()), vec!["zz-1"]);

    let failed = |repo| Msg::RepoViewPersisted { repo, result: Err("disk full".into()) };
    app.reduce(failed(RepoFilter::All));
    assert_eq!(app.notice(), None, "that choice is not the current one");
    app.reduce(failed(RepoFilter::Unknown));
    assert_eq!(app.notice(), Some("disk full"));
}

#[test]
fn only_the_last_copy_is_written() {
    let mut app = app_with(vec![row("ra", "ra-1", 1)]);
    let token_of = |effects: Vec<Effect>, block: bool| match effects.as_slice() {
        [Effect::Copy { row, markdown, token }] => {
            assert_eq!(row.issue.id, "ra-1");
            assert_eq!(*markdown, block);
            *token
        }
        other => panic!("expected a copy, got {other:?}"),
    };
    let first = token_of(app.reduce(Msg::CopyContext), false);
    let second = token_of(app.reduce(Msg::CopyMarkdown), true);
    let copied = |token, text: &str| Msg::Copied {
        token,
        payload: text.to_string(),
        summary: format!("{text}…"),
    };
    assert_eq!(app.reduce(copied(first, "old")), Vec::new());
    assert_eq!(
        app.reduce(copied(second, "new")),
        vec![Effect::WriteClipboard("new".into())]
    );
    assert_eq!(app.notice(), Some("copied: new…"));
    assert_eq!(app.reduce(copied(second, "again")), Vec::new(), "once is enough");
}

#[test]
fn the_detail_pane_scrolls_within_its_bounds() {
    let mut app = app_with(vec![row("ra", "ra-1", 1)]);
    app.reduce(Msg::DetailScrollDown);
    assert_eq!(app.detail_scroll(), 0);
    app.reduce(Msg::OpenDetail);
    app.reduce(Msg::DetailScrollBounds { max_scroll: 12 });
    app.reduce(Msg::DetailScrollDown);
    app.reduce(Msg::DetailPageDown);
    assert_eq!(app.detail_scroll(), 11);
    app.reduce(Msg::DetailPageDown);
    assert_eq!(app.detail_scroll(), 12);
    app.reduce(Msg::DetailScrollBounds { max_scroll: 5 });
    assert_eq!(app.detail_scroll(), 5);
    app.reduce(Msg::DetailPageUp);
    assert_eq!(app.detail_scroll(), 0);
    app.reduce(Msg::Back);
    app.reduce(Msg::OpenDetail);
    assert_eq!(app.detail_scroll(), 0, "a new pane starts at its top");
}

#[test]
fn generations_in_use_are_those_of_every_held_row() {
    let stamped = |id: &str, n| Row {
        attribution_generation: Some(AttributionGeneration::new(n)),
        ..row("ra", id, 1)
    };
    let mut app = app_with(vec![stamped("ra-1", 1), row("ra", "ra-2", 1)]);
    let token = search_for(&mut app, "x");
    app.reduce(Msg::SearchResults { token, rows: Ok(vec![stamped("ra-3", 3)]) });
    let held = app.attribution_generations();
    assert!(held.contains(&AttributionGeneration::new(1)));
    assert!(held.contains(&AttributionGeneration::new(3)));
}

#[test]
fn a_cached_snapshot_leaves_the_startup_refresh_alone() {
    let mut app = App::with_repo_view(RepoFilter::Only("rb".into()));
    app.hydrate_from_cache(snapshot(vec![
        prefixed("ra", "repo-a", "ra-1"),
        prefixed("rb", "repo-b", "rb-1"),
    ]));
    assert_eq!(app.view_mode(), ViewMode::List);
    assert!(app.is_stale());
    assert_eq!(ids(&app.filtered_rows()), vec!["rb-1"]);
    assert_eq!(app.reduce(Msg::Refresh), Vec::new());
}

#[test]
fn quitting_is_final() {
    let mut app = app_with(vec![row("ra", "ra-1", 1)]);
    app.reduce(Msg::Quit);
    for msg in [Msg::Refresh, Msg::OpenDetail, Msg::Back, completed(vec![])] {
        app.reduce(msg);
        assert!(app.is_done());
    }
}

#[test]
fn cycling_repositories_visits_each_and_returns() {
    let mut app = app_with(vec![
        prefixed("ra", "repo-a", "ra-1"),
        prefixed("rb", "repo-b", "rb-1"),
        prefixed("ra", "repo-a", "ra-2"),
    ]);
    let mut seen = Vec::new();
    for _ in 0..3 {
        app.reduce(Msg::CycleRepoFilter);
        seen.push(app.repo_view().clone());
    }
    assert_eq!(
        seen,
        vec![
            RepoFilter::Only("ra".into()),
            RepoFilter::Only("rb".into()),
            RepoFilter::All
        ]
    );
}

#[test]
fn a_filter_matches_by_prefix_before_name() {
    let only = |key: &str| FilterSet::new(RepoFilter::Only(key.into()), PriorityFilter::All);
    let with_prefix = prefixed("ra", "repo-a", "ra-1");
    assert!(only("ra").matches(&with_prefix));
    assert!(!only("repo-a").matches(&with_prefix));
    assert!(only("repo-a").matches(&row("repo-a", "ra-1", 1)));
    let mut filter = FilterSet::default();
    filter.toggle_priority();
    assert!(!filter.matches(&row("r", "r-1", 2)));
    assert!(filter.matches(&row("r", "r-1", 1)));
    filter.toggle_priority();
    assert_eq!(filter, FilterSet::default(), "toggling twice is nothing");
    let unknown = FilterSet::new(RepoFilter::Unknown, PriorityFilter::All);
    assert!(unknown.matches(&row("unknown", "zz-1", 1)));
    assert!(!unknown.matches(&prefixed("unknown", "unknown", "unknown-1")));
}
