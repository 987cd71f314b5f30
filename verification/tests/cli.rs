use fbd::bd::{BdError, BdErrorKind, BdVersion, Issue};
use fbd::cli::{
    doctor_hub_probe, format_row, format_row_body, load_roster, parse_version, run_doctor,
    reset_cache_removed, reset_hub_removed, run_reset, version_gate, CliError, ResetStep,
    RosterHealth,
};
use fbd::config::{Config, Paths, RepoEntry};
use fbd::hub::{hub_dir, HubError};
use fbd::io::{IoFailure, IoKind, Probe};
use fbd::path::FsPath;
use fbd::refresh::RefreshError;
use fbd::snapshot::Row;

fn version(v: &str, schema: i64) -> BdVersion {
    BdVersion {
        version: v.to_string(),
        schema_version: schema,
        build: None,
        commit: None,
        branch: None,
    }
}

fn issue(id: &str, priority: i64, title: &str) -> Issue {
    Issue {
        id: id.to_string(),
        title: title.to_string(),
        status: "open".into(),
        priority,
        description: None,
        issue_type: None,
        owner: None,
        labels: Vec::new(),
        created_at: None,
        created_by: None,
        updated_at: Some("2026-07-11T00:00:00Z".into()),
        dependency_count: None,
        dependent_count: None,
        comment_count: None,
    }
}

fn row(repo_name: &str, id: &str, priority: i64, title: &str) -> Row {
    Row {
        issue: issue(id, priority, title),
        repo_id: None,
        repo_name: repo_name.to_string(),
        attribution_generation: None,
    }
}

fn paths() -> Paths {
    Paths::with_base(&FsPath::new("/base"))
}

#[test]
fn format_row_matches_spec() {
    let r = row("ra", "ra-2hc", 1, "Ready task one");
    assert_eq!(format_row(&r), "[ra] P1 ra-2hc Ready task one");
}

#[test]
fn format_row_neutralizes_terminal_control_chars() {
    // A hostile title: an OSC 52 clipboard-write escape plus a newline that
    // would otherwise forge a second row.
    let r = row("ra", "ra-2hc", 1, "pwn\u{1b}]52;c;aGk=\u{07}\nfake row");
    let line = format_row(&r);
    assert!(
        !line.contains('\u{1b}') && !line.contains('\n') && !line.contains('\u{07}'),
        "no raw control chars survive: {line:?}"
    );
    assert!(
        line.starts_with("[ra] P1 ra-2hc "),
        "the row prefix is intact: {line:?}"
    );
}

#[test]
fn version_gate_accepts_supported() {
    assert!(version_gate(&version("1.1.0", 1)).is_ok());
    assert!(version_gate(&version("1.2.0", 1)).is_ok());
    assert!(version_gate(&version("2.0.0", 1)).is_ok());
}

#[test]
fn version_gate_rejects_old_version() {
    let msg = version_gate(&version("1.0.0", 1)).expect_err("too old");
    assert!(msg.contains("1.1.0"), "names the requirement: {msg}");
    assert!(msg.contains("1.0.0"), "names what was found: {msg}");
}

#[test]
fn version_gate_rejects_wrong_schema() {
    let msg = version_gate(&version("1.1.0", 2)).expect_err("wrong schema");
    assert!(
        msg.to_lowercase().contains("schema"),
        "message mentions schema: {msg}"
    );
}

#[test]
fn version_gate_rejects_incomplete_version() {
    // Fail closed: an incomplete or non-numeric version must not be trusted
    // even though its numeric prefix would compare >= the minimum.
    for bad in ["1.1", "2", "1.x.0", "", "v1.1.0"] {
        assert!(
            version_gate(&version(bad, 1)).is_err(),
            "incomplete/non-numeric version {bad:?} must be refused"
        );
    }
}

#[test]
#[allow(non_snake_case)] // name mirrors the `MISSING` marker under test
fn doctor_lists_missing_repo_as_MISSING() {
    let paths = paths();
    let roster = Ok(vec![
        RosterHealth {
            path: FsPath::new("/base/ra"),
            exists: true,
            prefix: Some("ra".into()),
        },
        RosterHealth { path: FsPath::new("/base/gone"), exists: false, prefix: None },
    ]);

    let stdout = run_doctor(&Ok(version("1.1.0", 1)), &paths, true, &roster);

    assert!(stdout.contains("1.1.0"), "bd version reported: {stdout}");
    assert!(
        stdout.contains(&paths.config_file().display()),
        "config path reported: {stdout}"
    );
    assert!(
        stdout.contains(&hub_dir(&paths).display()),
        "hub path reported: {stdout}"
    );
    assert!(stdout.contains("ra"), "existing repo prefix reported: {stdout}");
    assert!(stdout.contains("MISSING"), "absent repo flagged MISSING: {stdout}");
}

#[test]
fn doctor_reports_gate_status() {
    let paths = paths();
    let none = Ok(Vec::new());

    let out_ok = run_doctor(&Ok(version("1.1.0", 1)), &paths, false, &none);
    assert!(out_ok.contains("gate: OK"), "supported bd shows gate: OK");

    let out_bad = run_doctor(&Ok(version("1.0.0", 1)), &paths, false, &none);
    assert!(out_bad.contains("gate: FAIL"), "old bd shows gate: FAIL");
}

#[test]
fn doctor_reports_malformed_config_without_failing() {
    let broken = Err(CliError::Io("this is not valid TOML".into()));

    let stdout = run_doctor(&Ok(version("1.1.0", 1)), &paths(), false, &broken);

    assert!(stdout.contains("1.1.0"), "version still reported: {stdout}");
    assert!(
        stdout.contains("roster: ERROR"),
        "malformed config surfaced as a reported line: {stdout}"
    );
}

#[test]
fn doctor_reports_a_bd_that_cannot_run_and_the_state_of_the_hub() {
    let error = BdError {
        command: "bd version --json".into(),
        stderr: "not found".into(),
        kind: BdErrorKind::Spawn,
    };
    let stdout = run_doctor(&Err(error), &paths(), false, &Ok(Vec::new()));
    assert!(stdout.starts_with("bd version: ERROR "), "{stdout}");
    assert!(stdout.contains("not created yet"), "{stdout}");
    let stdout = run_doctor(&Ok(version("1.1.0", 1)), &paths(), true, &Ok(Vec::new()));
    assert!(stdout.contains("(initialized)"), "{stdout}");
    assert_eq!(
        doctor_hub_probe(&FsPath::new("/hub")),
        FsPath::new("/hub/.beads/embeddeddolt")
    );
}

#[test]
fn load_roster_absent_is_empty_but_invalid_errors() {
    // No config file: a genuine first run yields an empty roster.
    let unread = || Err("reading config file".to_string());
    assert_eq!(load_roster(&Probe::Missing, unread()).unwrap(), Config::default());

    // Present but malformed: surfaced as an error, never silently empty.
    let invalid = || Err("parsing config TOML".to_string());
    assert_eq!(
        load_roster(&Probe::Present, invalid()),
        Err(CliError::Io("parsing config TOML".into()))
    );

    let roster = Config { repos: vec![RepoEntry { path: FsPath::new("/a") }] };
    assert_eq!(load_roster(&Probe::Present, Ok(roster.clone())), Ok(roster));
}

#[test]
fn load_roster_dangling_symlink_errors_not_empty() {
    // The link itself is there, so this is not a first run: the failure to
    // read it must surface, not be masked.
    let unread = || Err("No such file or directory".to_string());
    assert!(
        load_roster(&Probe::Present, unread()).is_err(),
        "a dangling config symlink must error, not read as empty"
    );
    let denied = IoFailure { kind: IoKind::Other, message: "denied".into() };
    assert!(load_roster(&Probe::Failed(denied), unread()).is_err());
}

#[test]
fn a_reset_fails_where_a_removal_does() {
    let paths = paths();
    let hub = hub_dir(&paths);
    assert_eq!(run_reset(&paths), ResetStep::InspectHub { hub: hub.clone() });
    let denied = || IoFailure { kind: IoKind::Other, message: "denied".into() };
    assert_eq!(
        reset_hub_removed(&paths, hub.clone(), Err(denied())),
        ResetStep::Failed {
            error: CliError::Hub(HubError::Io { path: hub, detail: "denied".into() })
        }
    );
    assert_eq!(
        reset_cache_removed(&paths, true, Err(denied())),
        ResetStep::Failed { error: CliError::Io("denied".into()) }
    );
}

#[test]
fn a_row_is_one_line_whatever_it_holds() {
    let hostile = "a\n\u{85}\u{2028}b\r";
    let line = format_row(&row(hostile, hostile, -3, hostile));
    assert_eq!(line.lines().count(), 1);
    assert!(!line.chars().any(char::is_control));
    assert_eq!(format_row_body(&row("ra", "ra-1", 0, "t")), "P0 ra-1 t");
}

#[test]
fn versions_are_three_numbers() {
    assert_eq!(parse_version("1.2.3"), Some((1, 2, 3)));
    assert_eq!(parse_version("10.0.007"), Some((10, 0, 7)));
    assert_eq!(parse_version("1.2.3.4"), Some((1, 2, 3)), "what follows is ignored");
    assert_eq!(parse_version(" 1 .2.3-rc.1+b"), Some((1, 2, 3)));
    assert_eq!(parse_version("1..3"), None);
    assert_eq!(parse_version("99999999999999999999.0.0"), None);
    assert!(version_gate(&version("1.0.99", 1)).is_err());
    assert!(version_gate(&version("1.1.0", 0)).is_err());
}

#[test]
fn every_error_has_a_message() {
    let bd = || BdError {
        command: "bd x".into(),
        stderr: "boom".into(),
        kind: BdErrorKind::Parse,
    };
    assert_eq!(CliError::VersionGate("too old".into()).message(), "too old");
    assert!(CliError::Bd(bd()).message().contains("boom"));
    assert!(CliError::Hub(HubError::Bd(bd())).message().contains("boom"));
    assert!(CliError::Refresh(RefreshError::Sync(bd())).message().contains("boom"));
    assert!(CliError::Io("denied".into()).message().contains("denied"));
    assert!(!RefreshError::AlreadyRefreshing.message().is_empty());
}
