use fbd::app::view::{
    format_age, list_screen, scroll_offset, status_line, LineStyle, ScreenLine, EMPTY_HINT,
    KEY_HINTS, NO_MATCH_HINT,
};
use fbd::app::{App, Msg};
use fbd::bd::Issue;
use fbd::snapshot::{Row, Snapshot};
use fbd::time::Timestamp;

const W: usize = 80;
const H: usize = 24;

fn row(repo: &str, id: &str, priority: i64, title: &str) -> Row {
    Row {
        issue: Issue {
            id: id.to_string(),
            title: title.to_string(),
            status: "open".into(),
            priority,
            description: None,
            issue_type: None,
            owner: None,
            labels: Vec::new(),
            created_at: None,
            created_by: None,
            updated_at: None,
            dependency_count: None,
            dependent_count: None,
            comment_count: None,
        },
        repo_id: None,
        repo_name: repo.to_string(),
        attribution_generation: None,
    }
}

fn at(secs: i64) -> Timestamp {
    Timestamp::from_unix(secs, 0)
}

/// An `App` advanced to `List` with the given rows (fetched at `at(1000)`)
/// and warnings, via a single `RefreshCompleted`.
fn app_with(rows: Vec<Row>, warnings: Vec<String>) -> App {
    let mut app = App::new();
    app.reduce(Msg::RefreshCompleted {
        snapshot: Some(Snapshot {
            rows,
            fetched_at: at(1000),
        }),
        warnings,
    });
    app
}

/// The screen: the title, the part of the list that is scrolled into view, and
/// the status line.
fn render(app: &App, now: Timestamp) -> Vec<ScreenLine> {
    let plain = |text: String| ScreenLine { text, style: LineStyle::Plain };
    let height = H - 2;
    let screen = list_screen(app, W, height);
    let mut shown = vec![plain(KEY_HINTS.to_string())];
    shown.extend(screen.lines.into_iter().skip(screen.offset as usize).take(height));
    while shown.len() < H - 1 {
        shown.push(plain(String::new()));
    }
    shown.push(plain(status_line(app, now)));
    shown
}

/// The text of screen line `y`.
fn line_text(screen: &[ScreenLine], y: usize) -> String {
    screen[y].text.clone()
}

/// The `y` of the first screen line whose text contains `needle`.
fn find_line(screen: &[ScreenLine], needle: &str) -> Option<usize> {
    (0..H).find(|&y| line_text(screen, y).contains(needle))
}

#[test]
fn renders_group_headers_and_rows() {
    // Contiguous by repo so each repo reads as one section.
    let app = app_with(
        vec![
            row("session-tui", "ra-2hc", 1, "Ready task one"),
            row("session-tui", "ra-9", 2, "Second task"),
            row("megaclock", "mc-1", 0, "Third task"),
        ],
        vec![],
    );
    let buf = render(&app, at(1000));

    let header = find_line(&buf, "▸ session-tui").expect("session-tui header present");
    assert!(
        find_line(&buf, "▸ megaclock").is_some(),
        "megaclock header present"
    );
    let row_y = find_line(&buf, "P1 ra-2hc").expect("row line present");
    assert!(
        line_text(&buf, row_y).contains("Ready task one"),
        "row carries its title"
    );
    assert_ne!(header, row_y, "header and row are on distinct lines");
}

#[test]
fn renders_selection_highlight() {
    let mut app = app_with(
        vec![
            row("session-tui", "ra-2hc", 1, "Ready task one"),
            row("session-tui", "ra-9", 2, "Second task"),
        ],
        vec![],
    );
    app.reduce(Msg::SelectNext); // selection = 1 -> ra-9
    let buf = render(&app, at(1000));

    let sel_y = find_line(&buf, "ra-9").expect("selected row present");
    assert!(
        buf[sel_y].style == LineStyle::Selected,
        "the selected row is highlighted (REVERSED)"
    );
    let other_y = find_line(&buf, "ra-2hc").expect("other row present");
    assert!(
        buf[other_y].style != LineStyle::Selected,
        "a non-selected row is not highlighted"
    );
}

#[test]
fn renders_status_bar_with_age_and_warnings() {
    let app = app_with(
        vec![row("session-tui", "ra-2hc", 1, "Ready task one")],
        vec!["export failed for reading-lite".into()],
    );
    // fetched at 1000; now 180s later.
    let buf = render(&app, at(1180));

    let status = line_text(&buf, H - 1);
    assert!(
        status.contains("refreshed 3m ago"),
        "status shows humanized age: {status:?}"
    );
    assert!(
        status.contains("1 repo failed (see doctor)"),
        "status summarizes the warning: {status:?}"
    );
}

#[test]
fn renders_empty_state_hint() {
    let app = app_with(vec![], vec![]);
    let buf = render(&app, at(1000));

    assert!(
        find_line(&buf, EMPTY_HINT).is_some(),
        "an empty ready list shows the discover hint"
    );
}

#[test]
fn renders_loading_before_first_snapshot() {
    let app = App::new(); // Loading, no snapshot yet
    let buf = render(&app, at(1000));

    assert!(find_line(&buf, "Loading…").is_some(), "loading placeholder");
    assert!(
        find_line(&buf, EMPTY_HINT).is_none(),
        "loading is not the empty state"
    );
}

#[test]
fn navigation_follows_display_order() {
    // Interleaved repos in flat (priority) order: the rendered order must
    // match the flat order so selection index N is the Nth displayed row.
    let app = app_with(
        vec![
            row("repo-a", "ra-0", 0, "a first"),
            row("repo-b", "rb-0", 0, "b first"),
            row("repo-a", "ra-1", 1, "a second"),
        ],
        vec![],
    );
    let buf = render(&app, at(1000));

    let y0 = find_line(&buf, "ra-0").expect("ra-0 present");
    let y1 = find_line(&buf, "rb-0").expect("rb-0 present");
    let y2 = find_line(&buf, "ra-1").expect("ra-1 present");
    assert!(
        y0 < y1 && y1 < y2,
        "rows keep flat order on screen: ra-0@{y0} rb-0@{y1} ra-1@{y2}"
    );
    // repo-a's run is split by repo-b, so its header is drawn twice.
    let repo_a_headers = (0..H)
        .filter(|&y| line_text(&buf, y).contains("▸ repo-a"))
        .count();
    assert_eq!(
        repo_a_headers, 2,
        "a non-contiguous repo re-emits its header"
    );
}

#[test]
fn filtered_empty_shows_filter_hint() {
    // Rows exist but the priority filter hides them all: the user must be
    // told it is a filter, not an unconfigured roster.
    let mut app = app_with(vec![row("repo-a", "ra-2", 2, "low prio")], vec![]);
    app.reduce(Msg::TogglePriorityFilter); // HighOnly -> hides the P2 row
    let buf = render(&app, at(1000));

    assert!(
        find_line(&buf, NO_MATCH_HINT).is_some(),
        "filtered-empty shows the filter hint"
    );
    assert!(
        find_line(&buf, EMPTY_HINT).is_none(),
        "filtered-empty is not misreported as an unconfigured roster"
    );
}

#[test]
fn keeps_selection_in_viewport() {
    // A list far taller than the 24-row screen: selecting the last row must
    // scroll it into view (and the first row out).
    let rows: Vec<Row> = (0..40)
        .map(|n| row("session-tui", &format!("ra-{n:02}"), 1, "task"))
        .collect();
    let mut app = app_with(rows, vec![]);
    for _ in 0..39 {
        app.reduce(Msg::SelectNext); // selection -> last row (ra-39)
    }
    let buf = render(&app, at(1000));

    let sel_y = find_line(&buf, "ra-39").expect("selected last row is on screen");
    assert!(
        buf[sel_y].style == LineStyle::Selected,
        "the scrolled-to selection is highlighted"
    );
    assert!(
        find_line(&buf, "ra-00").is_none(),
        "the first row has scrolled off the top"
    );
}

#[test]
fn scroll_offset_keeps_selection_visible() {
    // Fits above the fold: no scroll.
    assert_eq!(scroll_offset(Some(3), 10, 40), 0);
    assert_eq!(scroll_offset(None, 10, 40), 0);
    // Short list (fits entirely): never scroll.
    assert_eq!(scroll_offset(Some(5), 10, 8), 0);
    // Past the fold: anchor selection to the last visible row.
    assert_eq!(scroll_offset(Some(10), 10, 40), 1);
    assert_eq!(scroll_offset(Some(39), 10, 40), 30);
}

#[test]
fn failed_initial_refresh_shows_hint_not_loading() {
    // The first refresh fails (no snapshot): the App stays in `Loading` with
    // `stale` cleared. The list must not show a permanent spinner.
    let mut app = App::new();
    app.reduce(Msg::RefreshCompleted {
        snapshot: None,
        warnings: vec!["hub sync failed".into()],
    });
    let buf = render(&app, at(1000));

    assert!(
        find_line(&buf, "Loading…").is_none(),
        "a concluded (failed) refresh is not still 'Loading…'"
    );
    assert!(
        find_line(&buf, EMPTY_HINT).is_some(),
        "the empty hint is shown instead"
    );
    assert!(
        line_text(&buf, H - 1).contains("1 repo failed (see doctor)"),
        "the failure is surfaced in the status bar"
    );
}

#[test]
fn format_age_humanizes() {
    let base = at(1_000_000);
    assert_eq!(format_age(base, base), "just now");
    assert_eq!(format_age(at(1_000_042), base), "42s ago");
    assert_eq!(format_age(at(1_000_180), base), "3m ago");
    assert_eq!(format_age(at(1_007_200), base), "2h ago");
    assert_eq!(format_age(at(1_432_000), base), "5d ago");
    // Clock skew: now precedes fetched -> saturates, never negative.
    assert_eq!(format_age(base, at(1_000_100)), "just now");
}

#[test]
fn the_selected_line_fills_the_width_and_headers_stand_out() {
    let app = app_with(vec![row("ra", "ra-1", 1, "one")], vec![]);
    let screen = list_screen(&app, 20, 5);
    assert_eq!(screen.offset, 0);
    assert_eq!(
        screen.lines,
        vec![
            ScreenLine { text: "▸ ra".to_string(), style: LineStyle::Header },
            ScreenLine { text: "  P1 ra-1 one       ".to_string(), style: LineStyle::Selected },
        ]
    );
}

#[test]
fn a_hostile_repository_name_cannot_break_the_header_line() {
    let app = app_with(vec![row("r\u{1b}[2J\na", "ra-1", 1, "one")], vec![]);
    let screen = list_screen(&app, 10, 5);
    assert!(!screen.lines[0].text.contains('\u{1b}'));
    assert!(!screen.lines[0].text.contains('\n'));
}

#[test]
fn scroll_offset_is_capped_and_needs_a_height() {
    assert_eq!(scroll_offset(Some(7), 0, 40), 0);
    assert_eq!(scroll_offset(Some(9), 10, 40), 0);
    assert_eq!(scroll_offset(Some(1_000_000), 10, 2_000_000), u16::MAX);
}

#[test]
fn the_status_line_tells_age_refresh_and_warnings() {
    let mut app = App::new();
    assert_eq!(status_line(&app, at(1000)), "refreshing…");
    app.reduce(Msg::RefreshCompleted { snapshot: None, warnings: vec![] });
    assert_eq!(status_line(&app, at(1000)), "never refreshed");
    let mut app = app_with(vec![], vec!["a".into(), "b".into()]);
    assert_eq!(status_line(&app, at(1003)), "refreshed just now · 2 repos failed (see doctor)");
    app.reduce(Msg::RefreshStarted);
    assert_eq!(
        status_line(&app, at(1060)),
        "refreshed 1m ago · refreshing… · 2 repos failed (see doctor)"
    );
}

#[test]
fn format_age_changes_unit_at_the_edges() {
    let base = at(0);
    assert_eq!(format_age(at(4), base), "just now");
    assert_eq!(format_age(at(5), base), "5s ago");
    assert_eq!(format_age(at(59), base), "59s ago");
    assert_eq!(format_age(at(60), base), "1m ago");
    assert_eq!(format_age(at(3_599), base), "59m ago");
    assert_eq!(format_age(at(3_600), base), "1h ago");
    assert_eq!(format_age(at(86_399), base), "23h ago");
    assert_eq!(format_age(at(86_400), base), "1d ago");
}
