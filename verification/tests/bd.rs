use fbd::bd::cli::{
    argv_export, argv_export_to, argv_init, argv_ready, argv_repo_add, argv_repo_list,
    argv_repo_sync, argv_search, argv_show, argv_version, ProcessOutput,
};
use fbd::bd::{BdCli, BdError, BdErrorKind, BdShapeError, Dependency, Issue, IssueDetail};
use fbd::path::FsPath;

#[test]
fn builds_correct_argv() {
    assert_eq!(argv_version(), vec!["version", "--json"]);

    // `init` carries no `-C`; it runs with the target dir as cwd because bd
    // rejects `-C` before an existing project is created.
    assert_eq!(argv_init("ra"), vec!["init", "--prefix", "ra"]);

    assert_eq!(
        argv_repo_add(&FsPath::new("/tmp/hub"), &FsPath::new("/tmp/ra")),
        vec!["-C", "/tmp/hub", "repo", "add", "/tmp/ra"]
    );

    assert_eq!(
        argv_repo_list(&FsPath::new("/tmp/hub")),
        vec!["-C", "/tmp/hub", "repo", "list", "--json"]
    );

    assert_eq!(
        argv_export(&FsPath::new("/tmp/ra")),
        vec![
            "-C",
            "/tmp/ra",
            "export",
            "-o",
            "/tmp/ra/.beads/issues.jsonl"
        ]
    );

    assert_eq!(
        argv_repo_sync(&FsPath::new("/tmp/hub")),
        vec!["-C", "/tmp/hub", "repo", "sync"]
    );

    assert_eq!(
        argv_ready(&FsPath::new("/tmp/hub")),
        vec!["-C", "/tmp/hub", "ready", "--json"]
    );

    assert_eq!(
        argv_show(&FsPath::new("/tmp/hub"), "ra-2hc"),
        vec!["-C", "/tmp/hub", "show", "ra-2hc", "--json"]
    );

    assert_eq!(
        argv_search(&FsPath::new("/tmp/hub"), "needle"),
        vec!["-C", "/tmp/hub", "search", "needle", "--json"]
    );
}

#[test]
fn argv_preserves_paths_with_spaces() {
    // No shell is involved, so a spaced/unicode path is a single argv element.
    let dir = &FsPath::new("/tmp/my repos/rä");
    assert_eq!(
        argv_ready(dir),
        vec!["-C", "/tmp/my repos/rä", "ready", "--json"]
    );
}

#[test]
fn bderror_display_truncates_stderr() {
    let huge = "x".repeat(5000);
    let err = BdError {
        command: "bd -C /tmp/hub ready --json".to_string(),
        stderr: huge,
        kind: BdErrorKind::NonZeroExit { code: Some(1) },
    };
    let shown = err.message();
    assert!(shown.contains("bd -C /tmp/hub ready --json"));
    assert!(
        shown.len() < 5000,
        "stderr must be truncated, got {} chars",
        shown.len()
    );
    assert!(
        shown.contains("(truncated)"),
        "expected truncation marker in: {shown}"
    );
}

fn detail(id: &str) -> IssueDetail {
    IssueDetail {
        issue: Issue {
            id: id.to_string(),
            title: "Blocked task".into(),
            status: "open".into(),
            priority: 2,
            description: Some("waits".into()),
            issue_type: Some("task".into()),
            owner: None,
            labels: Vec::new(),
            created_at: None,
            created_by: None,
            updated_at: None,
            dependency_count: Some(1),
            dependent_count: None,
            comment_count: None,
        },
        dependencies: vec![Dependency {
            id: "ra-z70".into(),
            title: None,
            status: None,
            dependency_type: Some("blocks".into()),
        }],
    }
}

#[test]
fn into_single_ok() {
    let details: Vec<IssueDetail> = vec![detail("ra-4zf")];
    let one = IssueDetail::into_single(details).expect("exactly one -> Ok");
    assert_eq!(one.issue.id, "ra-4zf");
}

#[test]
fn into_single_rejects_zero_and_many() {
    let zero = IssueDetail::into_single(Vec::new());
    assert!(zero.is_err());
    assert!(zero.unwrap_err().message().contains("0"));

    let two: Vec<IssueDetail> = {
        let mut v: Vec<IssueDetail> = vec![detail("ra-4zf")];
        v.push(v[0].clone());
        v
    };
    let many = IssueDetail::into_single(two);
    assert!(many.is_err());
    assert!(many.unwrap_err().message().contains("2"));
}

#[test]
fn shown_issues_must_be_one() {
    let cli = BdCli::new();
    let args = argv_show(&FsPath::new("/hub"), "ra-1");
    assert_eq!(cli.shown(&args, vec![detail("ra-1")]), Ok(detail("ra-1")));
    let error = cli.shown(&args, vec![]).unwrap_err();
    assert_eq!(error.kind, BdErrorKind::Shape);
    assert_eq!(error.command, "bd -C /hub show ra-1 --json");
    assert_eq!(error.stderr, BdShapeError::ExpectedOne { got: 0 }.message());
}

#[test]
fn a_finished_process_gives_its_output_or_its_failure() {
    let cli = BdCli::new();
    let args = argv_version();
    let ok = ProcessOutput {
        success: true,
        code: Some(0),
        stdout: b"{}".to_vec(),
        stderr: b"noise".to_vec(),
    };
    assert_eq!(cli.captured(&args, ok), Ok(b"{}".to_vec()));
    let failed = ProcessOutput {
        success: false,
        code: Some(2),
        stdout: b"{}".to_vec(),
        stderr: b"bad \xff byte".to_vec(),
    };
    assert_eq!(
        cli.captured(&args, failed),
        Err(BdError {
            command: "bd version --json".into(),
            stderr: "bad \u{fffd} byte".into(),
            kind: BdErrorKind::NonZeroExit { code: Some(2) },
        })
    );
    assert_eq!(cli.spawn_error(&args, "not found").kind, BdErrorKind::Spawn);
    assert_eq!(cli.spawn_error(&args, "not found").stderr, "not found");
    assert_eq!(cli.parse_error(&args, &b"oops".to_vec()).kind, BdErrorKind::Parse);
}

#[test]
fn error_messages_name_command_kind_and_stderr() {
    let error = BdError {
        command: "bd version --json".into(),
        stderr: "boom".into(),
        kind: BdErrorKind::NonZeroExit { code: Some(1) },
    };
    assert!(error.message().contains("bd version --json"));
    assert!(error.message().contains("boom"));
    assert!(!error.message().contains("(truncated)"));
    let exact = BdError { stderr: "x".repeat(500), ..error.clone() };
    assert!(!exact.message().contains("(truncated)"));
    let over = BdError { stderr: "x".repeat(501), ..error };
    assert!(over.message().ends_with("... (truncated)"));
}

#[test]
fn an_export_can_name_its_output() {
    assert_eq!(
        argv_export_to(&FsPath::new("/r"), &FsPath::new("/r/.beads/x.tmp")),
        vec!["-C", "/r", "export", "-o", "/r/.beads/x.tmp"]
    );
}
