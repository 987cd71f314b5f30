use std::cell::RefCell;
use std::collections::{BTreeMap, BTreeSet};

use fbd::app::RepoFilter;
use fbd::config::{replacement_path, Config, Paths, RepoEntry};
use fbd::io::{IoFailure, IoKind, Probe};
use fbd::migration::{
    bytes_published, bytes_read, bytes_validated, canonical_inspected, config_text, file_jobs,
    files_migrated, legacy_artifact_may_need_migration, legacy_inspected, legacy_opened,
    lock_opened, lock_taken, metadata_read, migrate_file, migrate_legacy_state,
    migrated_config_bytes, root_created, spans_are_apart, FileJob, FileResult, FileStep,
    MigrationArtifact, MigrationReport, MigrationStep, PublishOutcome, SpannedPath,
};
use fbd::path::FsPath;
use fbd::publish::{
    publish_cleaned, publish_dir_created, publish_filled, publish_linked, publish_no_clobber,
    publish_reserved, publish_synced, PublishStep,
};
use fbd::ui_state::{self, ParsedUiState, StoredRepository};

const BASE: &str = "/base";

/// Files and directories in memory.
#[derive(Default)]
struct Disk {
    files: RefCell<BTreeMap<String, Vec<u8>>>,
    blocked: RefCell<BTreeSet<String>>,
    next_temp: RefCell<u64>,
}

fn missing() -> IoFailure {
    IoFailure { kind: IoKind::NotFound, message: "No such file".into() }
}

impl Disk {
    fn write(&self, path: &FsPath, bytes: &[u8]) {
        self.files.borrow_mut().insert(path.display(), bytes.to_vec());
    }

    fn read(&self, path: &FsPath) -> Option<Vec<u8>> {
        self.files.borrow().get(&path.display()).cloned()
    }

    fn read_text(&self, path: &FsPath) -> Option<String> {
        self.read(path).map(|b| String::from_utf8(b).expect("text"))
    }

    fn inspect(&self, path: &FsPath) -> Probe {
        Probe::from_result(self.read(path).map(|_| ()).ok_or_else(missing))
    }

    fn create_new(&self, path: &FsPath) -> Result<(), IoFailure> {
        if self.read(path).is_some() {
            return Err(IoFailure { kind: IoKind::AlreadyExists, message: "exists".into() });
        }
        self.write(path, b"");
        Ok(())
    }

    fn publish(&self, destination: &FsPath, bytes: &[u8], process: u32) -> Result<PublishOutcome, IoFailure> {
        let next_count = || {
            let count = *self.next_temp.borrow();
            *self.next_temp.borrow_mut() += 1;
            count
        };
        let mut step = publish_no_clobber(destination);
        loop {
            step = match step {
                PublishStep::CreateDir { place } => {
                    publish_dir_created(place, Ok(()), process, next_count())
                }
                PublishStep::Reserve { place, temp } => {
                    let result = self.create_new(&temp);
                    publish_reserved(place, temp, result, process, next_count())
                }
                PublishStep::Fill { place, temp } => {
                    self.write(&temp, bytes);
                    publish_filled(place, temp, Ok(()))
                }
                PublishStep::Link { place, temp } => {
                    let result = self
                        .create_new(place.destination())
                        .map(|()| self.write(place.destination(), bytes));
                    publish_linked(place, temp, result)
                }
                PublishStep::SyncDir { temp, .. } => publish_synced(temp, Ok(())),
                PublishStep::Remove { temp, result } => {
                    let removed = self.files.borrow_mut().remove(&temp.display());
                    publish_cleaned(result, removed.map(|_| ()).ok_or_else(missing))
                }
                PublishStep::Finished { result } => return result,
            };
        }
    }
}

/// The paths that a roster file lists, with the places of their literals.
fn spans(text: &str) -> Result<Vec<SpannedPath>, String> {
    let table = toml::from_str::<toml::Table>(text).map_err(|_| "parsing config TOML".to_string())?;
    let mut from = 0;
    let mut found = Vec::new();
    let none = Vec::new();
    for entry in table.get("repos").and_then(|r| r.as_array()).unwrap_or(&none) {
        let path = entry["path"].as_str().expect("a path").to_string();
        let (start, len) = ["\"", "'"]
            .iter()
            .filter_map(|q| {
                let literal = format!("{q}{path}{q}");
                text[from..].find(&literal).map(|at| (from + at, literal.len()))
            })
            .min()
            .expect("a literal");
        from = start + len;
        found.push(SpannedPath { path, start, end: start + len });
    }
    Ok(found)
}

fn load_config(disk: &Disk, path: &FsPath) -> Option<Config> {
    let text = disk.read_text(path)?;
    let found = spans(&text).ok()?;
    Some(Config {
        repos: found.iter().map(|s| RepoEntry { path: FsPath::new(&s.path) }).collect(),
    })
}

fn save_config(disk: &Disk, path: &FsPath, config: &Config) {
    let mut text = String::new();
    for entry in &config.repos {
        text.push_str(&format!("[[repos]]\npath = \"{}\"\n\n", entry.path.display()));
    }
    if config.repos.is_empty() {
        text.push_str("repos = []\n");
    }
    disk.write(path, text.as_bytes());
}

fn validated(job: &FileJob, bytes: &Vec<u8>) -> Result<Vec<u8>, String> {
    match job.artifact {
        MigrationArtifact::Config => {
            let text = config_text(bytes)?;
            let found = spans(&text)?;
            migrated_config_bytes(&job.legacy, bytes, &found)
        }
        _ => {
            let value = serde_json::from_slice::<serde_json::Value>(bytes).ok();
            let version = value.as_ref().and_then(|v| v.get("version")).and_then(|v| v.as_u64());
            ui_state::validate(&job.legacy, version, true).map(|()| bytes.clone())
        }
    }
}

fn migrate_one(disk: &Disk, job: &FileJob) -> FileResult {
    let mut step = migrate_file();
    loop {
        step = match step {
            FileStep::InspectCanonical => canonical_inspected(job, disk.inspect(&job.canonical)),
            FileStep::InspectLegacy => legacy_inspected(job, disk.inspect(&job.legacy)),
            FileStep::Open => legacy_opened(job, Ok(())),
            FileStep::ReadMetadata => metadata_read(job, Ok(())),
            FileStep::Read => bytes_read(job, disk.read(&job.legacy).ok_or_else(missing)),
            FileStep::Validate { bytes } => bytes_validated(job, validated(job, &bytes)),
            FileStep::Publish { bytes } => {
                bytes_published(job, disk.publish(&job.canonical, &bytes, 1))
            }
            FileStep::Finished { result } => return result,
        };
    }
}

fn migrate(disk: &Disk, paths: &Paths) -> MigrationReport {
    let (config, ui) = file_jobs(paths);
    let needed = |job: &FileJob| {
        legacy_artifact_may_need_migration(&disk.inspect(&job.canonical), &disk.inspect(&job.legacy))
    };
    let mut step = migrate_legacy_state(paths, needed(&config), needed(&ui));
    loop {
        step = match step {
            MigrationStep::CreateRoot { dir } => {
                let result = if disk.blocked.borrow().contains(&dir.display()) {
                    Err(IoFailure { kind: IoKind::Other, message: "Not a directory".into() })
                } else {
                    Ok(())
                };
                root_created(paths, &dir, result)
            }
            MigrationStep::OpenLock { file } => {
                assert_eq!(&file, paths.migration_lock_file());
                lock_opened(paths, Ok(()))
            }
            MigrationStep::Lock => lock_taken(paths, Ok(())),
            MigrationStep::MigrateFiles => {
                let migrated = migrate_one(disk, &config);
                files_migrated(paths, migrated, migrate_one(disk, &ui))
            }
            MigrationStep::Done { report } => return report,
        };
    }
}

fn under(text: &str) -> FsPath {
    FsPath::new(BASE).join_text(text)
}

fn ui_choice(disk: &Disk, path: &FsPath) -> RepoFilter {
    let parsed = match disk.read(path) {
        None => ParsedUiState::Unreadable,
        Some(bytes) => {
            let value: serde_json::Value = serde_json::from_slice(&bytes).expect("JSON");
            assert_eq!(value["version"].as_u64(), Some(ui_state::VERSION));
            ParsedUiState::Current {
                repository: value["repository"]["Prefix"]
                    .as_str()
                    .map(|p| StoredRepository::Prefix(p.to_string())),
            }
        }
    };
    ui_state::load(parsed)
}

fn save_ui_choice(disk: &Disk, path: &FsPath, prefix: &str) {
    let state = ui_state::save(&RepoFilter::Only(prefix.to_string()));
    assert_eq!(state.repository, Some(StoredRepository::Prefix(prefix.to_string())));
    let text = format!("{{\"version\":{},\"repository\":{{\"Prefix\":\"{prefix}\"}}}}", state.version);
    disk.write(path, text.as_bytes());
}

fn one_repo(path: &str) -> Config {
    Config { repos: vec![RepoEntry { path: FsPath::new(path) }] }
}

#[test]
fn paths_uses_injected_base() {
    let base = FsPath::new(BASE);

    let paths = Paths::with_base(&base);

    assert_eq!(paths.config_file(), &base.join_text("hank").join_text("config.toml"));
    assert_eq!(paths.data_dir(), &base.join_text("hank"));
    assert_eq!(paths.ui_state_file(), &base.join_text("hank").join_text("ui_state.json"));
    assert_eq!(
        paths.migration_lock_file(),
        &base.join_text("hank").join_text(".hank-migration.lock")
    );
}

#[test]
fn migrates_valid_legacy_config_without_removing_source() {
    let disk = Disk::default();
    let paths = Paths::with_base(&FsPath::new(BASE));
    let legacy = under("federated-beads/config.toml");
    let expected = one_repo("/legacy/repo");
    save_config(&disk, &legacy, &expected);

    let report = migrate(&disk, &paths);

    assert!(report.fatal_problem().is_none(), "{report:?}");
    assert_eq!(report.migrated(), &vec![paths.config_file().clone()]);
    assert_eq!(load_config(&disk, paths.config_file()), Some(expected.clone()));
    assert_eq!(load_config(&disk, &legacy), Some(expected));
}

#[test]
fn migrated_relative_repo_paths_keep_their_legacy_config_meaning() {
    let disk = Disk::default();
    let paths = Paths::with_base(&FsPath::new(BASE));
    let legacy_dir = under("federated-beads");
    let repo = legacy_dir.join_text("repo");
    disk.write(
        &legacy_dir.join_text("config.toml"),
        b"# preserved comment\nextra = \"preserved\"\nrepos = [{ path = \"repo\", note = \"keep\" }]\n",
    );

    let report = migrate(&disk, &paths);
    let loaded = load_config(&disk, paths.config_file()).expect("a roster");

    assert!(report.fatal_problem().is_none(), "{report:?}");
    assert_eq!(loaded.repos[0].path, repo);
    let migrated = disk.read_text(paths.config_file()).expect("a file");
    assert!(migrated.contains("# preserved comment"), "{migrated}");
    assert!(migrated.contains("extra = \"preserved\""), "{migrated}");
    assert!(migrated.contains("note = \"keep\""), "{migrated}");
    assert_eq!(
        migrated,
        "# preserved comment\nextra = \"preserved\"\nrepos = [{ path = \"/base/federated-beads/repo\", note = \"keep\" }]\n"
    );
}

#[test]
fn absolute_only_config_is_published_byte_for_byte() {
    let disk = Disk::default();
    let paths = Paths::with_base(&FsPath::new(BASE));
    let legacy = under("federated-beads/config.toml");
    let original = b"# keep formatting and unknown keys\nextra = 'preserved'\nrepos = [ { path = '/absolute/repo', note = 'keep' } ]\n";
    disk.write(&legacy, original);

    let report = migrate(&disk, &paths);

    assert!(report.fatal_problem().is_none(), "{report:?}");
    assert_eq!(disk.read(paths.config_file()).expect("a file"), original);
}

#[test]
fn tilde_paths_keep_legacy_expansion_semantics() {
    let disk = Disk::default();
    let paths = Paths::with_base(&FsPath::new(BASE));
    let legacy = under("federated-beads/config.toml");
    let config = Config {
        repos: ["~", "~/repo", "~user/repo"]
            .iter()
            .map(|p| RepoEntry { path: FsPath::new(p) })
            .collect(),
    };
    save_config(&disk, &legacy, &config);

    let report = migrate(&disk, &paths);
    let migrated = load_config(&disk, paths.config_file()).expect("a roster");

    assert!(report.fatal_problem().is_none(), "{report:?}");
    assert_eq!(migrated.repos[0].path, FsPath::new("~"));
    assert_eq!(migrated.repos[1].path, FsPath::new("~/repo"));
    assert_eq!(
        migrated.repos[2].path,
        legacy.parent().expect("a parent").join_text("~user/repo")
    );
}

#[test]
fn migrates_valid_legacy_ui_state_without_removing_source() {
    let disk = Disk::default();
    let paths = Paths::with_base(&FsPath::new(BASE));
    let legacy = under("federated-beads/ui_state.json");
    save_ui_choice(&disk, &legacy, "repo-a");

    let report = migrate(&disk, &paths);

    assert!(report.fatal_problem().is_none(), "{report:?}");
    assert_eq!(ui_choice(&disk, paths.ui_state_file()), RepoFilter::Only("repo-a".into()));
    assert_eq!(ui_choice(&disk, &legacy), RepoFilter::Only("repo-a".into()));
}

#[test]
fn fresh_install_does_not_create_canonical_state_files() {
    let disk = Disk::default();
    let paths = Paths::with_base(&FsPath::new(BASE));

    let report = migrate(&disk, &paths);

    assert!(report.fatal_problem().is_none(), "{report:?}");
    assert!(report.migrated().is_empty());
    assert!(disk.files.borrow().is_empty());
    assert_eq!(
        migrate_legacy_state(&paths, false, false),
        MigrationStep::Done { report: MigrationReport::default() },
        "checking an install with no legacy state must not require or create the data root"
    );
}

#[test]
fn canonical_state_wins_even_when_legacy_state_is_invalid() {
    let disk = Disk::default();
    let paths = Paths::with_base(&FsPath::new(BASE));
    let canonical = one_repo("/canonical");
    save_config(&disk, paths.config_file(), &canonical);
    save_ui_choice(&disk, paths.ui_state_file(), "canonical");
    disk.write(&under("federated-beads/config.toml"), b"not = [toml");
    disk.write(&under("federated-beads/ui_state.json"), b"not json");

    let report = migrate(&disk, &paths);

    assert!(report.problems().is_empty(), "{report:?}");
    assert_eq!(load_config(&disk, paths.config_file()), Some(canonical));
    assert_eq!(ui_choice(&disk, paths.ui_state_file()), RepoFilter::Only("canonical".into()));
}

#[test]
fn malformed_legacy_config_is_fatal_and_never_published() {
    let disk = Disk::default();
    let paths = Paths::with_base(&FsPath::new(BASE));
    let legacy = under("federated-beads/config.toml");
    disk.write(&legacy, b"repos = [this is not TOML");

    let report = migrate(&disk, &paths);

    let problem = report.fatal_problem().expect("invalid config is fatal");
    assert!(problem.contains(&legacy.display()), "{problem}");
    assert!(problem.contains("invalid"), "{problem}");
    assert!(disk.read(paths.config_file()).is_none());
    assert_eq!(disk.read_text(&legacy).expect("a file"), "repos = [this is not TOML");
}

#[test]
fn invalid_legacy_ui_state_warns_and_falls_back_to_all_repositories() {
    let disk = Disk::default();
    let paths = Paths::with_base(&FsPath::new(BASE));
    let legacy = under("federated-beads/ui_state.json");
    disk.write(&legacy, br#"{"version":999,"repository":"repo-a"}"#);

    let report = migrate(&disk, &paths);

    assert!(report.fatal_problem().is_none(), "{report:?}");
    let warnings = report.warnings();
    let warning = warnings.first().expect("invalid UI warning");
    assert!(warning.contains(&legacy.display()), "{warning}");
    assert!(disk.read(paths.ui_state_file()).is_none());
    assert_eq!(ui_choice(&disk, paths.ui_state_file()), RepoFilter::All);
}

#[test]
fn unwritable_canonical_target_is_deterministic_and_leaves_no_partial_file() {
    let disk = Disk::default();
    let paths = Paths::with_base(&FsPath::new(BASE));
    let legacy = under("federated-beads/config.toml");
    save_config(&disk, &legacy, &Config::default());
    disk.blocked.borrow_mut().insert(under("hank").display());

    let report = migrate(&disk, &paths);

    let problem = report.fatal_problem().expect("blocked target is fatal");
    assert!(problem.contains(&paths.data_dir().display()), "{problem}");
    assert!(disk.read(paths.config_file()).is_none());
    assert_eq!(load_config(&disk, &legacy), Some(Config::default()));
}

#[test]
fn migration_temp_collision_is_preserved_and_retried() {
    let disk = Disk::default();
    let destination = under("config.toml");
    let collision = under(".config.toml.hank-migrate.7.0.tmp");
    disk.write(&collision, b"not ours");

    let outcome = disk.publish(&destination, b"repos = []\n", 7).expect("published");

    assert_eq!(outcome, PublishOutcome::Published);
    assert_eq!(disk.read_text(&destination).expect("a file"), "repos = []\n");
    assert_eq!(disk.read_text(&collision).expect("a file"), "not ours");
    assert!(disk.read(&under(".config.toml.hank-migrate.7.1.tmp")).is_none());
}

#[test]
fn derived_legacy_state_is_never_copied() {
    let disk = Disk::default();
    let paths = Paths::with_base(&FsPath::new(BASE));
    disk.write(&under("federated-beads/snapshot_cache.json"), b"legacy cache");
    disk.write(&under("federated-beads/hub/.fbd.lock"), b"legacy lock");
    disk.write(&under("federated-beads/.issues.jsonl.fbd.1.0.tmp"), b"legacy temp");

    let report = migrate(&disk, &paths);

    assert!(report.fatal_problem().is_none(), "{report:?}");
    assert!(disk.read(paths.cache_file()).is_none());
    assert!(disk.read(&under("federated-beads/hub/.fbd.lock")).is_some());
    assert!(disk.read(&under("federated-beads/snapshot_cache.json")).is_some());
    assert_eq!(disk.files.borrow().len(), 3);
}

#[test]
fn repeated_migration_changes_nothing() {
    let disk = Disk::default();
    let paths = Paths::with_base(&FsPath::new(BASE));
    save_config(&disk, &under("federated-beads/config.toml"), &one_repo("/once"));
    migrate(&disk, &paths);
    let before = disk.files.borrow().clone();

    let repeated = migrate(&disk, &paths);

    assert!(repeated.migrated().is_empty());
    assert_eq!(*disk.files.borrow(), before);
}

#[test]
fn a_canonical_file_that_appears_meanwhile_wins() {
    let disk = Disk::default();
    let destination = under("config.toml");
    disk.write(&destination, b"theirs");
    assert_eq!(disk.publish(&destination, b"ours", 1), Ok(PublishOutcome::CanonicalWon));
    assert_eq!(disk.read_text(&destination).expect("a file"), "theirs");
    assert_eq!(disk.files.borrow().len(), 1, "the temporary file is gone");
}

#[test]
fn paths_that_need_quoting_are_written_as_toml_strings() {
    let legacy = FsPath::new("/old \"dir\"/config.toml");
    let text = b"repos = [{ path = \"b\" }, { path = \"/abs\" }, { path = 'a' }]".to_vec();
    let found = spans("repos = [{ path = \"b\" }, { path = \"/abs\" }, { path = 'a' }]").expect("spans");
    let migrated = migrated_config_bytes(&legacy, &text, &found).expect("migrated");
    let migrated = String::from_utf8(migrated).expect("text");
    let again = spans_of_values(&migrated);
    assert_eq!(again, vec!["/old \"dir\"/b", "/abs", "/old \"dir\"/a"]);
}

fn spans_of_values(text: &str) -> Vec<String> {
    let table = toml::from_str::<toml::Table>(text).expect("TOML");
    table["repos"]
        .as_array()
        .expect("a list")
        .iter()
        .map(|e| e["path"].as_str().expect("a path").to_string())
        .collect()
}

#[test]
fn a_roster_file_must_be_text() {
    assert_eq!(config_text(&b"a = 1".to_vec()), Ok("a = 1".to_string()));
    assert_eq!(
        config_text(&vec![0xff]),
        Err("config file is not UTF-8".to_string())
    );
    let bad = FsPath::from_bytes(b"/\xff/config.toml".to_vec());
    let found = vec![SpannedPath { path: "a".into(), start: 0, end: 3 }];
    assert_eq!(
        migrated_config_bytes(&bad, &b"'a'".to_vec(), &found),
        Err("migrated repository path is not valid UTF-8".to_string())
    );
    assert_eq!(
        migrated_config_bytes(&FsPath::new("/"), &b"'a'".to_vec(), &found),
        Err("legacy config path has no parent directory".to_string())
    );
}

#[test]
fn infrastructure_failures_are_fatal_and_named() {
    let paths = Paths::with_base(&FsPath::new(BASE));
    let denied = || Err(IoFailure { kind: IoKind::Other, message: "denied".into() });
    for step in [
        root_created(&paths, &paths.migration_lock_dir(), denied()),
        lock_opened(&paths, denied()),
        lock_taken(&paths, denied()),
    ] {
        match step {
            MigrationStep::Done { report } => {
                let problem = report.fatal_problem().expect("a fatal problem");
                assert!(problem.starts_with("legacy migration cannot "), "{problem}");
                assert!(problem.ends_with(": denied"), "{problem}");
                assert!(report.warnings().is_empty());
            }
            other => panic!("expected the end, got {other:?}"),
        }
    }
}

#[test]
fn every_failure_on_a_file_becomes_a_problem() {
    let paths = Paths::with_base(&FsPath::new(BASE));
    let (job, _) = file_jobs(&paths);
    let failure = || IoFailure { kind: IoKind::Other, message: "denied".into() };
    let steps = [
        canonical_inspected(&job, Probe::Failed(failure())),
        legacy_inspected(&job, Probe::Failed(failure())),
        legacy_opened(&job, Err(failure())),
        metadata_read(&job, Err(failure())),
        bytes_read(&job, Err(failure())),
        bytes_validated(&job, Err("bad".to_string())),
        bytes_published(&job, Err(failure())),
    ];
    for step in steps {
        match step {
            FileStep::Finished { result: FileResult::Problem(problem) } => {
                assert_eq!(problem.artifact, MigrationArtifact::Config);
            }
            other => panic!("expected a problem, got {other:?}"),
        }
    }
    assert_eq!(
        bytes_published(&job, Ok(PublishOutcome::CanonicalWon)),
        FileStep::Finished { result: FileResult::Skipped }
    );
    assert_eq!(
        legacy_inspected(&job, Probe::Missing),
        FileStep::Finished { result: FileResult::Skipped }
    );
}

#[test]
fn files_lie_in_their_directories_and_relative_entries_beside_the_roster() {
    let paths = Paths::from_roots(&FsPath::new("/c"), &FsPath::new("/d"));
    assert_eq!(paths.config_file(), &FsPath::new("/c/hank/config.toml"));
    assert_eq!(paths.cache_file(), &FsPath::new("/d/hank/snapshot_cache.json"));
    assert_eq!(paths.legacy_config_file(), &FsPath::new("/c/federated-beads/config.toml"));
    assert_eq!(paths.legacy_ui_state_file(), &FsPath::new("/d/federated-beads/ui_state.json"));
    assert_eq!(paths.resolve_roster_path(&FsPath::new("repo")), FsPath::new("/c/hank/repo"));
    assert_eq!(paths.resolve_roster_path(&FsPath::new("/repo")), FsPath::new("/repo"));
    assert_eq!(
        replacement_path(&FsPath::new("/c/x.toml"), 9),
        Some(FsPath::new("/c/.x.toml.tmp.9"))
    );
    assert_eq!(replacement_path(&FsPath::new("/"), 9), None);
}

#[test]
fn places_in_a_roster_file_have_to_lie_apart() {
    let at = |start: usize, end: usize| SpannedPath { path: "a".into(), start, end };
    assert!(spans_are_apart(&Vec::new(), 0));
    assert!(spans_are_apart(&vec![at(4, 8), at(0, 4)], 8));
    assert!(!spans_are_apart(&vec![at(0, 4)], 3), "beyond the file");
    assert!(!spans_are_apart(&vec![at(2, 2)], 3), "empty");
    assert!(!spans_are_apart(&vec![at(0, 4), at(3, 6)], 8), "overlapping");
}

#[test]
fn publishing_never_replaces_and_cleans_up() {
    let disk = Disk::default();
    let destination = under("config.toml");
    disk.write(&destination, b"mine");
    assert_eq!(disk.publish(&destination, b"other", 7), Ok(PublishOutcome::CanonicalWon));
    assert_eq!(disk.read_text(&destination).expect("a file"), "mine");
    assert_eq!(disk.files.borrow().len(), 1, "no sibling is left");
}

#[test]
fn a_failed_publish_still_removes_its_sibling() {
    let full = || IoFailure { kind: IoKind::Other, message: "disk full".into() };
    let PublishStep::CreateDir { place } = publish_no_clobber(&under("config.toml")) else {
        panic!("a place with a directory and a name");
    };
    assert_eq!(place.parent(), &FsPath::new(BASE));
    let PublishStep::Reserve { place, temp } = publish_dir_created(place, Ok(()), 7, 0) else {
        panic!("a sibling is reserved");
    };
    let PublishStep::Fill { place, temp } = publish_reserved(place, temp, Ok(()), 7, 1) else {
        panic!("the sibling is written");
    };
    let PublishStep::Remove { temp: gone, result } =
        publish_filled(place, temp.clone(), Err(full()))
    else {
        panic!("the sibling is removed");
    };
    assert_eq!(gone, temp);
    assert_eq!(
        publish_cleaned(result, Ok(())),
        PublishStep::Finished { result: Err(full()) }
    );
    assert!(matches!(
        publish_synced(temp, Err(full())),
        PublishStep::Remove { result: Err(_), .. }
    ));
    assert!(matches!(
        publish_no_clobber(&FsPath::new("config.toml")),
        PublishStep::Finished { result: Err(e) } if e.message == "destination has no parent"
    ));
}
