use std::cell::{Cell, RefCell};
use std::collections::{BTreeMap, BTreeSet};

use fbd::app::{Msg, RepoFilter};
use fbd::bd::{
    BdClient, BdError, BdErrorKind, BdVersion, Issue, IssueDetail, RepoSyncReport,
};
use fbd::cli::{
    reset_cache_removed, reset_hub_removed, reset_inspected, run_reset, run_snapshot,
    snapshot_lines, CliError, ResetStep, SnapshotEvent, SnapshotStep,
};
use fbd::config::{Config, Paths, RepoEntry};
use fbd::hub::{
    added, dir_created, ensure_hub, ensure_within, hub_config_file, hub_config_read, hub_dir,
    initialized, initialized_checked, normalized, probed, read_hub_roster, reset, reset_targets, roster_read,
    HubError, HubStatus, HubStep, ReconcileWitness, RosterFinding, HUB_PREFIX,
};
use fbd::io::{IoFailure, IoKind};
use fbd::path::FsPath;
use fbd::refresh::evidence::{EvidenceScan, ExportPrefixEvidence};
use fbd::refresh::export::{
    canonical_export, compared, exported, lengths_differ, preserved, published, removed, reserved,
    stable_export, ExportStep,
};
use fbd::refresh::pipeline::{
    generation_marker, hub_prepared, lock_file, lock_outcome, locked, marker_cleaned, marker_read,
    marker_replaced, order_outcomes, publish_hub_generation, run_finished, sources_run, synced,
    LockAttempt, MarkerStep,
};
use fbd::refresh::source::{
    cached_checked, normalized_jobs, prefix_read, read_checked, resolved_roster, run_source_job,
    worker_count, SourceJob, SourceOutcome, SourceStep,
};
use fbd::refresh::{
    attribution_map, run, AttributionCandidate, AttributionGeneration, ExportOperation,
    HubGenerationToken, PrefixMap, RefreshError, RefreshOutcome, RefreshStep, RepoError,
    VerifiedRepoPrefix,
};
use fbd::runtime::{
    build_copy_with_map, copy_repo, gather_detail, initial_interface, ready_read,
    hub_ensured, repo_view_saved, GatherStep, OperationCounts, PipelineMetrics, ReconcileStep,
    RuntimeRefreshState, COPY_SUMMARY_MAX,
};
use fbd::search::{
    run_search, search_locked, search_marker, search_message, start_search, SearchStep,
};
use fbd::snapshot::{Row, Snapshot};
use fbd::text::sanitize;
use fbd::time::Timestamp;
use fbd::ui_state::ParsedUiState;

const BASE: &str = "/base";
const NOW: i64 = 1_800_000_000;

// ---------------------------------------------------------------------------
// A file system in memory, and a client that writes to it.
// ---------------------------------------------------------------------------

#[derive(Default)]
struct World {
    dirs: RefCell<BTreeSet<String>>,
    files: RefCell<BTreeMap<String, Vec<u8>>>,
    lock_held: Cell<bool>,
    marker_blocked: Cell<bool>,
    counter: Cell<u64>,
}

fn missing() -> IoFailure {
    IoFailure { kind: IoKind::NotFound, message: "No such file or directory".into() }
}

fn now() -> Timestamp {
    Timestamp::from_unix(NOW, 0)
}

impl World {
    fn paths(&self) -> Paths {
        Paths::with_base(&FsPath::new(BASE))
    }

    fn under(&self, name: &str) -> FsPath {
        FsPath::new(BASE).join_text(name)
    }

    fn mkdir(&self, path: &FsPath) {
        self.dirs.borrow_mut().insert(self.plain(path).display());
    }

    /// A directory with what `bd` keeps its prefix in.
    fn seed_repo(&self, name: &str, prefix: &str) -> FsPath {
        self.seed_repo_at(&self.under(name), prefix)
    }

    fn seed_repo_at(&self, repo: &FsPath, prefix: &str) -> FsPath {
        self.mkdir(repo);
        self.write(
            &repo.join_text(".beads/metadata.json"),
            format!("{{\"database\":\"dolt\",\"dolt_database\":\"{prefix}\"}}").as_bytes(),
        );
        repo.clone()
    }

    /// Marks the hub as initialized and lists repositories in it.
    fn seed_hub(&self, additional: &[&str]) {
        let hub = hub_dir(&self.paths());
        self.mkdir(&hub);
        self.mkdir(&hub.join_text(".beads"));
        let mut yaml = String::from("repos:\n  primary: \".\"\n  additional:\n");
        for path in additional {
            yaml.push_str(&format!("    - \"{path}\"\n"));
        }
        self.write(&hub_config_file(&hub), yaml.as_bytes());
    }

    /// The path without `.` and `..`.
    fn plain(&self, path: &FsPath) -> FsPath {
        let mut parts: Vec<String> = Vec::new();
        for part in path.parts() {
            match part.display().as_str() {
                "/" | "." => {}
                ".." => {
                    parts.pop();
                }
                text => parts.push(text.to_string()),
            }
        }
        FsPath::new(&format!("/{}", parts.join("/")))
    }

    fn has(&self, path: &FsPath) -> bool {
        let plain = self.plain(path).display();
        self.dirs.borrow().contains(&plain) || self.files.borrow().contains_key(&plain)
    }

    fn normalize(&self, path: &FsPath) -> FsPath {
        if self.has(path) {
            self.plain(path)
        } else {
            path.clone()
        }
    }

    fn remove_tree(&self, path: &FsPath) {
        let below = format!("{}/", path.display());
        let gone = |p: &String| *p == path.display() || p.starts_with(&below);
        self.dirs.borrow_mut().retain(|p| !gone(p));
        self.files.borrow_mut().retain(|p, _| !gone(p));
    }

    fn write(&self, path: &FsPath, bytes: &[u8]) {
        self.files.borrow_mut().insert(self.plain(path).display(), bytes.to_vec());
    }

    fn read(&self, path: &FsPath) -> Result<Vec<u8>, IoFailure> {
        self.files.borrow().get(&self.plain(path).display()).cloned().ok_or_else(missing)
    }

    fn remove(&self, path: &FsPath) -> Result<(), IoFailure> {
        self.files
            .borrow_mut()
            .remove(&self.plain(path).display())
            .map(|_| ())
            .ok_or_else(missing)
    }

    fn create_new(&self, path: &FsPath) -> Result<(), IoFailure> {
        if self.read(path).is_ok() {
            return Err(IoFailure { kind: IoKind::AlreadyExists, message: "File exists".into() });
        }
        self.write(path, b"");
        Ok(())
    }

    fn files_below(&self, dir: &FsPath) -> Vec<String> {
        let below = format!("{}/", dir.display());
        self.files.borrow().keys().filter(|p| p.starts_with(&below)).cloned().collect()
    }

    fn count(&self) -> u64 {
        let n = self.counter.get();
        self.counter.set(n + 1);
        n
    }

    fn lock(&self) -> LockAttempt {
        if self.lock_held.get() {
            let busy = IoFailure { kind: IoKind::WouldBlock, message: "busy".into() };
            LockAttempt::LockFailed(busy)
        } else {
            LockAttempt::Acquired
        }
    }
}

#[derive(Debug, Clone, PartialEq, Eq)]
enum Call {
    Version,
    Init(FsPath, String),
    RepoAdd(FsPath, FsPath),
    Export(FsPath, FsPath),
    IssuePrefix(FsPath),
    RepoSync(FsPath),
    Ready(FsPath),
    Show(FsPath, String),
    Search(FsPath, String),
}

struct FakeBd<'w> {
    world: &'w World,
    calls: RefCell<Vec<Call>>,
    version: Result<BdVersion, BdError>,
    init: Result<(), BdError>,
    prefixes: Vec<(FsPath, String)>,
    export_content: Vec<(FsPath, Vec<u8>)>,
    export_err: Vec<(FsPath, BdError)>,
    sync: Result<RepoSyncReport, BdError>,
    ready: Result<Vec<Issue>, BdError>,
    search: Result<Vec<Issue>, BdError>,
    show: Result<IssueDetail, BdError>,
}

fn bd_err() -> BdError {
    BdError {
        command: "bd ...".into(),
        stderr: "boom".into(),
        kind: BdErrorKind::NonZeroExit { code: Some(1) },
    }
}

fn version(v: &str, schema: i64) -> BdVersion {
    BdVersion {
        version: v.to_string(),
        schema_version: schema,
        build: None,
        commit: None,
        branch: None,
    }
}

impl<'w> FakeBd<'w> {
    fn new(world: &'w World) -> Self {
        FakeBd {
            world,
            calls: RefCell::new(Vec::new()),
            version: Ok(version("1.1.0", 1)),
            init: Ok(()),
            prefixes: Vec::new(),
            export_content: Vec::new(),
            export_err: Vec::new(),
            sync: Ok(RepoSyncReport { output: String::new() }),
            ready: Ok(Vec::new()),
            search: Ok(Vec::new()),
            show: Err(bd_err()),
        }
    }

    fn with_version(mut self, v: Result<BdVersion, BdError>) -> Self {
        self.version = v;
        self
    }

    fn with_issue_prefix(mut self, repo: &FsPath, prefix: &str) -> Self {
        self.prefixes.push((repo.clone(), prefix.to_string()));
        self
    }

    fn with_export_content(mut self, repo: &FsPath, bytes: &[u8]) -> Self {
        self.export_content.push((repo.clone(), bytes.to_vec()));
        self
    }

    fn with_export_err(mut self, repo: &FsPath, error: BdError) -> Self {
        self.export_err.push((repo.clone(), error));
        self
    }

    fn with_repo_sync_err(mut self, error: BdError) -> Self {
        self.sync = Err(error);
        self
    }

    fn with_ready(mut self, issues: Vec<Issue>) -> Self {
        self.ready = Ok(issues);
        self
    }

    fn with_search(mut self, issues: Vec<Issue>) -> Self {
        self.search = Ok(issues);
        self
    }

    fn calls(&self) -> Vec<Call> {
        self.calls.borrow().clone()
    }

    fn record(&self, call: Call) {
        self.calls.borrow_mut().push(call);
    }

    fn prefix_reads(&self, repo: &FsPath) -> usize {
        self.calls().iter().filter(|c| **c == Call::IssuePrefix(repo.clone())).count()
    }
}

impl BdClient for FakeBd<'_> {
    fn version(&self) -> Result<BdVersion, BdError> {
        self.record(Call::Version);
        self.version.clone()
    }

    fn init(&self, dir: &FsPath, prefix: &str) -> Result<(), BdError> {
        self.record(Call::Init(dir.clone(), prefix.to_string()));
        self.init.clone()
    }

    fn repo_add(&self, hub: &FsPath, repo_path: &FsPath) -> Result<(), BdError> {
        self.record(Call::RepoAdd(hub.clone(), repo_path.clone()));
        Ok(())
    }

    fn export(&self, repo: &FsPath) -> Result<(), BdError> {
        self.export_to(repo, &canonical_export(repo))
    }

    fn export_to(&self, repo: &FsPath, output: &FsPath) -> Result<(), BdError> {
        self.record(Call::Export(repo.clone(), output.clone()));
        if let Some((_, error)) = self.export_err.iter().find(|(r, _)| r == repo) {
            return Err(error.clone());
        }
        let bytes = self
            .export_content
            .iter()
            .find(|(r, _)| r == repo)
            .map(|(_, b)| b.clone())
            .unwrap_or_default();
        self.world.write(output, &bytes);
        Ok(())
    }

    fn issue_prefix(&self, repo: &FsPath) -> Result<String, BdError> {
        self.record(Call::IssuePrefix(repo.clone()));
        if let Some((_, prefix)) = self.prefixes.iter().find(|(r, _)| r == repo) {
            return Ok(prefix.clone());
        }
        let bytes = self
            .world
            .read(&repo.join_text(".beads/metadata.json"))
            .map_err(|_| bd_err())?;
        let value: serde_json::Value = serde_json::from_slice(&bytes).expect("metadata");
        Ok(value["dolt_database"].as_str().expect("a prefix").to_string())
    }

    fn repo_sync(&self, hub: &FsPath) -> Result<RepoSyncReport, BdError> {
        self.record(Call::RepoSync(hub.clone()));
        self.sync.clone()
    }

    fn ready(&self, hub: &FsPath) -> Result<Vec<Issue>, BdError> {
        self.record(Call::Ready(hub.clone()));
        self.ready.clone()
    }

    fn show(&self, hub: &FsPath, id: &str) -> Result<IssueDetail, BdError> {
        self.record(Call::Show(hub.clone(), id.to_string()));
        self.show.clone()
    }

    fn search(&self, hub: &FsPath, query: &str) -> Result<Vec<Issue>, BdError> {
        self.record(Call::Search(hub.clone(), query.to_string()));
        self.search.clone()
    }
}

// ---------------------------------------------------------------------------
// Driving the library with them.
// ---------------------------------------------------------------------------

fn roster(paths: &[&FsPath]) -> Config {
    Config {
        repos: paths.iter().map(|p| RepoEntry { path: (*p).clone() }).collect(),
    }
}

fn hub_roster(world: &World, hub: &FsPath) -> Result<Vec<FsPath>, HubError> {
    let text = world
        .read(&hub_config_file(hub))
        .map(|bytes| String::from_utf8(bytes).expect("text"));
    let Some(text) = hub_config_read(hub, text)? else {
        return Ok(Vec::new());
    };
    let parsed = serde_yaml::from_str::<Option<serde_yaml::Value>>(&text)
        .map_err(|e| e.to_string())
        .map(|value| {
            value
                .and_then(|v| v.get("repos").and_then(|r| r.get("additional")).cloned())
                .and_then(|a| a.as_sequence().cloned())
                .unwrap_or_default()
                .iter()
                .map(|e| e.as_str().expect("a path").to_string())
                .collect()
        });
    read_hub_roster(hub, parsed)
}

fn drive_hub(world: &World, bd: &FakeBd, config: &Config) -> Result<HubStatus, HubError> {
    let mut step = ensure_hub(&world.paths());
    loop {
        step = match step {
            HubStep::CreateDir { hub } => {
                world.mkdir(&hub);
                dir_created(hub, Ok(()))
            }
            HubStep::CheckInitialized { hub } => {
                let found = world.has(&hub.join_text(".beads"));
                initialized_checked(hub, found)
            }
            HubStep::Init { hub } => {
                let result = bd.init(&hub, HUB_PREFIX);
                initialized(hub, result)
            }
            HubStep::ReadRoster { hub } => {
                let listed = hub_roster(world, &hub);
                roster_read(hub, listed)
            }
            HubStep::Normalize { hub, stored } => {
                let known = stored.iter().map(|p| world.normalize(p)).collect();
                normalized(hub, known, config)
            }
            HubStep::Probe { run } => {
                let entry = run.roster[run.next].clone();
                let found = world.has(&entry).then_some(world.normalize(&entry));
                probed(run, found)
            }
            HubStep::Add { run, repo } => {
                let result = bd.repo_add(&run.hub, &repo);
                added(run, result)
            }
            HubStep::Done { status } => return Ok(status),
            HubStep::Failed { error } => return Err(error),
        };
    }
}

fn witness(world: &World, config: &Config) -> Result<ReconcileWitness, HubError> {
    let hub = hub_dir(&world.paths());
    let known = hub_roster(world, &hub)?
        .iter()
        .map(|p| world.normalize(&hub.join(p)))
        .collect();
    let entries = config
        .repos
        .iter()
        .map(|e| RosterFinding {
            path: e.path.clone(),
            found: world.has(&e.path).then_some(world.normalize(&e.path)),
        })
        .collect();
    Ok(ReconcileWitness { initialized: world.has(&hub.join_text(".beads")), known, entries })
}

fn ensure_reconciled(
    world: &World,
    bd: &FakeBd,
    config: &Config,
    state: &mut RuntimeRefreshState,
) -> Result<Vec<String>, HubError> {
    let mut step = fbd::runtime::ensure_reconciled();
    loop {
        step = match step {
            ReconcileStep::Observe => state.observed(witness(world, config)),
            ReconcileStep::EnsureHub => hub_ensured(drive_hub(world, bd, config)),
            ReconcileStep::ObserveAgain { warnings } => {
                state.observed_again(warnings, witness(world, config))
            }
            ReconcileStep::Done { result } => return result,
        };
    }
}

fn drive_export(world: &World, bd: &FakeBd, repo: &FsPath) -> Vec<RepoError> {
    let process = 7;
    let mut step = stable_export(repo, world.has(repo), process, world.count());
    loop {
        step = match step {
            ExportStep::Reserve { candidate } => {
                let result = world.create_new(&candidate);
                reserved(repo, candidate, result, process, world.count())
            }
            ExportStep::Export { temp } => {
                let result = bd.export_to(repo, &temp);
                exported(repo, temp, result)
            }
            ExportStep::Compare { temp } => {
                let fresh = world.read(&temp).expect("the sibling");
                let old = world.read(&canonical_export(repo)).ok();
                let differ = lengths_differ(
                    fresh.len() as u64,
                    old.as_ref().map(|o| o.len() as u64),
                );
                let same = !differ && old == Some(fresh);
                compared(repo, temp, Ok(same))
            }
            ExportStep::Preserve { temp } => preserved(repo, temp, Ok(())),
            ExportStep::Publish { temp } => {
                let bytes = world.read(&temp).expect("the sibling");
                world.write(&canonical_export(repo), &bytes);
                let result = world.remove(&temp);
                published(repo, temp, result)
            }
            ExportStep::Remove { temp, errors } => {
                let result = world.remove(&temp);
                removed(repo, temp, errors, result)
            }
            ExportStep::Done { errors } => return errors,
        };
    }
}

fn evidence(world: &World, repo: &FsPath, prefix: &str) -> ExportPrefixEvidence {
    let bytes = world.read(&canonical_export(repo)).expect("an export");
    let text = String::from_utf8(bytes).expect("text");
    let mut scan = EvidenceScan::new(prefix);
    for line in text.lines() {
        let id = serde_json::from_str::<serde_json::Value>(line)
            .ok()
            .and_then(|v| v["id"].as_str().map(str::to_string));
        scan.read(line, id.as_deref());
        if scan.is_decided() {
            break;
        }
    }
    scan.evidence()
}

fn drive_source(
    world: &World,
    bd: &FakeBd,
    job: SourceJob,
    normalized_path: FsPath,
    previous: &Vec<VerifiedRepoPrefix>,
) -> SourceOutcome {
    let repo = job.entry.path.clone();
    let errors = drive_export(world, bd, &repo);
    let has_export = || world.read(&canonical_export(&repo)).is_ok();
    let mut step = run_source_job(
        job,
        normalized_path,
        previous,
        errors,
        world.has(&repo),
        has_export(),
    );
    loop {
        step = match step {
            SourceStep::CheckCached { run, prefix } => {
                let found = evidence(world, &repo, &prefix);
                cached_checked(run, prefix, Ok(found))
            }
            SourceStep::ReadPrefix { run } => {
                let answer = bd.issue_prefix(&repo);
                prefix_read(run, answer)
            }
            SourceStep::CheckRead { run, prefix } => {
                let found = if has_export() {
                    Some(evidence(world, &repo, &prefix))
                } else {
                    None
                };
                read_checked(run, prefix, Ok(found))
            }
            SourceStep::Done { outcome } => return outcome,
        };
    }
}

/// Runs a refresh; the repositories are worked on in the order that `schedule`
/// gives to their jobs.
fn drive_refresh_in(
    world: &World,
    bd: &FakeBd,
    config: &Config,
    previous: &Vec<VerifiedRepoPrefix>,
    schedule: fn(Vec<(SourceJob, FsPath)>) -> Vec<(SourceJob, FsPath)>,
) -> Result<(RefreshOutcome, AttributionCandidate), RefreshError> {
    let paths = world.paths();
    let resolved = resolved_roster(config, &paths);
    let names: Vec<FsPath> = resolved.iter().map(|p| world.normalize(p)).collect();
    let (jobs, kept) = normalized_jobs(&resolved, &names);
    let mut step = run(&paths);
    loop {
        step = match step {
            RefreshStep::PrepareHub { hub } => {
                world.mkdir(&hub);
                hub_prepared(hub, Ok(()))
            }
            RefreshStep::Lock { hub } => locked(hub, world.lock()),
            RefreshStep::RunSources { hub } => {
                let work = schedule(jobs.iter().cloned().zip(kept.iter().cloned()).collect());
                let outcomes = work
                    .into_iter()
                    .map(|(job, name)| drive_source(world, bd, job, name, previous))
                    .collect();
                sources_run(hub, Some(outcomes))
            }
            RefreshStep::Sync { hub, gathered } => {
                let sync = bd.repo_sync(&hub);
                synced(gathered, sync, kept.clone(), now(), 0, 0)
            }
            RefreshStep::Synced { outcome, candidate } => return Ok((outcome, candidate)),
            RefreshStep::Failed { error } => return Err(error),
        };
    }
}

fn drive_refresh(
    world: &World,
    bd: &FakeBd,
    config: &Config,
    previous: &Vec<VerifiedRepoPrefix>,
) -> Result<(RefreshOutcome, AttributionCandidate), RefreshError> {
    drive_refresh_in(world, bd, config, previous, |jobs| jobs)
}

fn publish_marker(world: &World, token: &HubGenerationToken) -> Result<(), RefreshError> {
    let hub = hub_dir(&world.paths());
    let mut step = publish_hub_generation(&hub, 7, world.count());
    loop {
        step = match step {
            MarkerStep::Replace { temp, marker } => {
                world.write(&temp, token.as_str().as_bytes());
                let result = if world.marker_blocked.get() {
                    Err(IoFailure { kind: IoKind::Other, message: "Is a directory".into() })
                } else {
                    world.remove(&temp).expect("the sibling");
                    world.write(&marker, token.as_str().as_bytes());
                    Ok(())
                };
                marker_replaced(&hub, temp, result)
            }
            MarkerStep::Remove { temp, error } => {
                world.remove(&temp).expect("the sibling");
                marker_cleaned(error)
            }
            MarkerStep::Done { result } => return result,
        };
    }
}

fn read_marker(world: &World) -> Result<Option<HubGenerationToken>, RefreshError> {
    let hub = hub_dir(&world.paths());
    let read = world
        .read(&generation_marker(&hub))
        .map(|bytes| String::from_utf8(bytes).expect("text"));
    marker_read(&hub, read)
}

fn fresh_token(world: &World) -> HubGenerationToken {
    HubGenerationToken::fresh(7, 1_000, world.count())
}

/// A refresh outside a session, which publishes a token of its own.
fn refresh_once(world: &World, bd: &FakeBd, config: &Config) -> Result<RefreshOutcome, RefreshError> {
    let (outcome, _) = drive_refresh(world, bd, config, &Vec::new())?;
    world.lock_held.set(true);
    let published = publish_marker(world, &fresh_token(world));
    world.lock_held.set(false);
    run_finished(outcome, published)
}

fn gather_snapshot_with_state(
    world: &World,
    bd: &FakeBd,
    config: &Config,
    state: &mut RuntimeRefreshState,
) -> (Option<Snapshot>, Vec<String>) {
    let mut step = state.gather();
    loop {
        step = match step {
            GatherStep::CheckVersion => state.version_checked(bd.version()),
            GatherStep::Reconcile => {
                let result = ensure_reconciled(world, bd, config, state);
                state.reconciled(result)
            }
            GatherStep::Refresh { warnings, previous } => {
                let result = drive_refresh(world, bd, config, &previous);
                state.refreshed(warnings, result)
            }
            GatherStep::Publish { warnings, outcome, candidate } => {
                let token = fresh_token(world);
                let result = publish_marker(world, &token);
                state.published(warnings, outcome, candidate, token, result)
            }
            GatherStep::ReadReady { warnings, generation, prefix_map, fetched_at } => {
                let ready = bd.ready(&hub_dir(&world.paths()));
                ready_read(warnings, generation, &prefix_map, fetched_at, ready)
            }
            GatherStep::Done { snapshot, warnings } => return (snapshot, warnings),
        };
    }
}

#[test]
fn metrics_tell_what_a_refresh_took() {
    let world = World::default();
    let ra = world.seed_repo("ra", "ra");
    let rb = world.seed_repo("rb", "rb");
    let bd = FakeBd::new(&world);
    let (mut outcome, _) = drive_refresh(&world, &bd, &roster(&[&ra, &rb]), &Vec::new()).unwrap();
    outcome.metrics.source_wall = 30;
    outcome.metrics.sync = 12;
    let mut metrics = PipelineMetrics::default();
    assert_eq!(metrics.calls, OperationCounts::default());
    metrics.add_version(true, 5);
    metrics.add_reconcile(6);
    metrics.add_refresh(&outcome);
    metrics.add_ready(7);
    metrics.finish(99);
    assert_eq!(
        metrics,
        PipelineMetrics {
            total: 99,
            version: 5,
            reconcile: 6,
            source_wall: 30,
            sync: 12,
            ready: 7,
            calls: OperationCounts {
                version: 1,
                export: 2,
                issue_prefix: 2,
                repo_sync: 1,
                ready: 1,
                search: 0,
            },
            sync_report: Some(RepoSyncReport { output: String::new() }),
        }
    );
    metrics.add_version(false, 1);
    assert_eq!(metrics.calls.version, 0);
}

#[test]
fn a_reset_spares_the_users_files() {
    let paths = Paths::from_roots(&FsPath::new("/c"), &FsPath::new("/d"));
    let (hub, cache) = reset_targets(&paths);
    assert_eq!(reset(&paths).unwrap(), hub);
    assert_eq!(hub, FsPath::new("/d/hank/hub"));
    assert_eq!(cache, FsPath::new("/d/hank/snapshot_cache.json"));
    for file in [
        paths.ui_state_file(),
        paths.config_file(),
        paths.legacy_ui_state_file(),
        paths.legacy_config_file(),
    ] {
        assert!(!file.is_strictly_within(&hub) && !file.same_path(&hub));
        assert!(!file.is_strictly_within(&cache) && !file.same_path(&cache));
    }
}

/// The `reset` command: what it prints.
fn drive_reset(world: &World) -> Result<String, CliError> {
    let paths = world.paths();
    let mut step = run_reset(&paths);
    loop {
        step = match step {
            ResetStep::InspectHub { hub } => {
                let present = world.has(&hub);
                reset_inspected(&paths, hub, present)
            }
            ResetStep::RemoveHub { hub } => {
                world.remove_tree(&hub);
                reset_hub_removed(&paths, hub, Ok(()))
            }
            ResetStep::RemoveCache { file, existed } => {
                reset_cache_removed(&paths, existed, world.remove(&file))
            }
            ResetStep::Done { report } => return Ok(report),
            ResetStep::Failed { error } => return Err(error),
        };
    }
}

#[test]
fn reset_removes_hub_and_reports() {
    let world = World::default();
    let hub = hub_dir(&world.paths());
    world.seed_hub(&[]);
    world.write(&hub.join_text(".beads/marker"), b"x");

    let stdout = drive_reset(&world).expect("ok");

    assert!(!world.has(&hub) && world.files_below(&hub).is_empty(), "hub dir removed");
    assert!(stdout.contains(&hub.display()), "reset reports the removed path: {stdout}");
    assert_eq!(
        drive_reset(&world).expect("ok"),
        format!("hub reset: nothing to remove ({})", hub.display())
    );
}

#[test]
fn reset_reports_removed_for_dangling_hub_symlink() {
    let world = World::default();
    let hub = hub_dir(&world.paths());
    // A link that leads nowhere: something is there, but no directory.
    world.write(&hub, b"nowhere");

    let stdout = drive_reset(&world).expect("ok");

    assert!(
        stdout.contains("removed") && !stdout.contains("nothing to remove"),
        "a removed dangling symlink is reported as removed: {stdout}"
    );
    assert!(!world.has(&hub), "the dangling symlink was actually removed");
}

#[test]
fn reset_ignores_legacy_state_and_only_clears_canonical_derived_state() {
    let world = World::default();
    let paths = world.paths();
    world.seed_hub(&[]);
    world.write(paths.cache_file(), b"cache");
    world.write(paths.legacy_config_file(), b"repos = [invalid TOML");
    world.write(paths.legacy_ui_state_file(), br#"{"version":2}"#);

    drive_reset(&world).expect("ok");

    assert!(!world.has(&hub_dir(&paths)));
    assert!(!world.has(paths.cache_file()));
    assert!(world.has(paths.legacy_config_file()));
    assert!(world.has(paths.legacy_ui_state_file()));
    assert!(!world.has(paths.config_file()));
    assert!(!world.has(paths.ui_state_file()));
}

#[test]
fn lock_releases_after_refresh() {
    let world = World::default();
    let a = world.seed_repo("a", "ra");
    let bd = FakeBd::new(&world);
    assert_eq!(read_marker(&world), Ok(None));

    refresh_once(&world, &bd, &roster(&[&a])).unwrap();
    let first = read_marker(&world).unwrap();
    refresh_once(&world, &bd, &roster(&[&a])).unwrap();

    assert_eq!(lock_outcome(&hub_dir(&world.paths()), world.lock()), Ok(true));
    assert!(first.is_some());
    assert_ne!(read_marker(&world).unwrap(), first, "each refresh leaves a token of its own");
}

#[test]
fn a_failing_repository_spoils_no_other() {
    let world = World::default();
    let ra = world.seed_repo("ra", "ra");
    let rb = world.seed_repo("rb", "rb");
    let bd = FakeBd::new(&world).with_export_err(&rb, bd_err());

    let outcome = refresh_once(&world, &bd, &roster(&[&rb, &ra])).unwrap();

    assert_eq!(
        outcome.errors.iter().map(|e| e.message()).collect::<Vec<_>>(),
        vec![RepoError::Export { repo: rb, source: bd_err() }.message()]
    );
    assert_eq!(repo_of(&outcome.prefix_map, "ra-1"), Some(&ra));
}

fn gather_snapshot(world: &World, bd: &FakeBd, config: &Config) -> (Option<Snapshot>, Vec<String>) {
    gather_snapshot_with_state(world, bd, config, &mut RuntimeRefreshState::new())
}

fn gather_search_with_state(
    world: &World,
    bd: &FakeBd,
    query: &str,
    state: &RuntimeRefreshState,
) -> Result<Vec<Row>, String> {
    let mut step = start_search(state, &world.paths());
    loop {
        step = match step {
            SearchStep::Lock { search } => search_locked(search, world.lock()),
            SearchStep::ReadMarker { search } => search_marker(search, read_marker(world)),
            SearchStep::Query { search } => {
                return run_search(bd, query, search, now()).map(|(rows, verified)| {
                    assert!(rows
                        .iter()
                        .all(|r| r.attribution_generation == Some(verified.generation)));
                    rows
                });
            }
            SearchStep::Refused { message } => return Err(message),
        };
    }
}

/// The text copied for a row: the repository of its generation's map, where
/// it still exists.
fn copy(world: &World, bd: &FakeBd, row: &Row, markdown: bool, map: Option<&PrefixMap>) -> (String, String) {
    let is_dir = copy_repo(map, row).is_some_and(|r| world.has(&r));
    build_copy_with_map(bd, &world.paths(), row, markdown, map, is_dir)
}

/// The `snapshot` command: what it prints, and what it warns about.
fn drive_snapshot(
    world: &World,
    bd: &FakeBd,
    config: &Config,
) -> Result<(Vec<String>, Vec<String>), CliError> {
    let mut warned = Vec::new();
    let mut step = SnapshotStep::CheckVersion;
    loop {
        let event = match step {
            SnapshotStep::CheckVersion => SnapshotEvent::Version { version: bd.version() },
            SnapshotStep::EnsureHub => {
                SnapshotEvent::Hub { status: drive_hub(world, bd, config) }
            }
            SnapshotStep::Refresh => {
                SnapshotEvent::Refreshed { result: refresh_once(world, bd, config), now: now() }
            }
            SnapshotStep::ReadReady { .. } => {
                SnapshotEvent::Ready { ready: bd.ready(&hub_dir(&world.paths())) }
            }
            SnapshotStep::Print { snapshot } => return Ok((snapshot_lines(&snapshot), warned)),
            SnapshotStep::Failed { error } => return Err(error),
        };
        let (lines, next) = run_snapshot(step, event);
        warned.extend(lines);
        step = next;
    }
}

fn issue(id: &str, priority: i64, title: &str) -> Issue {
    Issue {
        id: id.to_string(),
        title: title.to_string(),
        status: "open".into(),
        priority,
        description: None,
        issue_type: None,
        owner: None,
        labels: Vec::new(),
        created_at: None,
        created_by: None,
        updated_at: Some("2026-07-11T00:00:00Z".into()),
        dependency_count: None,
        dependent_count: None,
        comment_count: None,
    }
}

fn repo_of<'m>(map: &'m PrefixMap, id: &str) -> Option<&'m FsPath> {
    map.repo_for(id).map(|r| &r.path)
}

// ---------------------------------------------------------------------------
// The hub.
// ---------------------------------------------------------------------------

fn adds(bd: &FakeBd) -> Vec<FsPath> {
    bd.calls()
        .into_iter()
        .filter_map(|c| match c {
            Call::RepoAdd(_, p) => Some(p),
            _ => None,
        })
        .collect()
}

#[test]
fn creates_hub_when_missing() {
    let world = World::default();
    let bd = FakeBd::new(&world);

    drive_hub(&world, &bd, &Config::default()).unwrap();

    // Exactly one init, targeting the hub dir with the "hub" prefix.
    assert_eq!(
        bd.calls(),
        vec![Call::Init(hub_dir(&world.paths()), HUB_PREFIX.to_string())]
    );
}

#[test]
fn skips_init_when_hub_already_initialized() {
    let world = World::default();
    world.seed_hub(&[]);
    let bd = FakeBd::new(&world);

    drive_hub(&world, &bd, &Config::default()).unwrap();

    assert!(
        !bd.calls().iter().any(|c| matches!(c, Call::Init(_, _))),
        "init must be skipped when the hub is already initialized"
    );
}

#[test]
fn adds_missing_repos_only() {
    let world = World::default();
    let ra = world.seed_repo("ra", "ra");
    let rb = world.seed_repo("rb", "rb");
    world.seed_hub(&["/base/ra"]);
    let bd = FakeBd::new(&world);

    drive_hub(&world, &bd, &roster(&[&ra, &rb])).unwrap();

    assert_eq!(adds(&bd), vec![rb], "only the untracked repo is added");
}

#[test]
fn tolerates_absent_repo_paths() {
    let world = World::default();
    world.seed_hub(&[]);
    let gone = world.under("gone");
    let bd = FakeBd::new(&world);

    let status = drive_hub(&world, &bd, &roster(&[&gone])).unwrap();

    assert!(
        status.warnings.iter().any(|w| w.contains("gone")),
        "absent path should warn, got {:?}",
        status.warnings
    );
    assert!(adds(&bd).is_empty(), "absent path must not be repo_add'd");
}

#[test]
fn ensure_hub_is_idempotent() {
    let world = World::default();
    let ra = world.seed_repo("ra", "ra");
    world.seed_hub(&["/base/ra"]);
    let bd = FakeBd::new(&world);

    drive_hub(&world, &bd, &roster(&[&ra])).unwrap();
    drive_hub(&world, &bd, &roster(&[&ra])).unwrap();

    assert!(adds(&bd).is_empty(), "an already-tracked repo must never be re-added");
}

#[test]
fn dedupes_duplicate_roster_entries_within_one_run() {
    let world = World::default();
    let ra = world.seed_repo("ra", "ra");
    world.seed_hub(&[]);
    let bd = FakeBd::new(&world);

    drive_hub(&world, &bd, &roster(&[&ra, &ra])).unwrap();

    assert_eq!(adds(&bd).len(), 1, "duplicate roster entry must add only once");
}

#[test]
fn treats_hub_relative_stored_entry_as_tracked() {
    let world = World::default();
    // `ra` sits beside the hub; the hub stores it as the relative `../ra`.
    let ra = world.seed_repo_at(&world.paths().data_dir().join_text("ra"), "ra");
    world.seed_hub(&["../ra"]);
    let bd = FakeBd::new(&world);

    drive_hub(&world, &bd, &roster(&[&ra])).unwrap();

    assert!(
        adds(&bd).is_empty(),
        "a hub-relative stored entry must match the absolute roster path"
    );
}

#[test]
fn init_failure_propagates() {
    let world = World::default();
    let mut bd = FakeBd::new(&world);
    bd.init = Err(bd_err());

    assert_eq!(drive_hub(&world, &bd, &Config::default()), Err(HubError::Bd(bd_err())));
}

#[test]
fn reset_guard_rejects_path_outside_data_dir() {
    let data = &FsPath::new("/data/federated-beads");
    assert!(ensure_within(data, &FsPath::new("/etc")).is_err());
    assert!(ensure_within(data, &data.join_text("hub")).is_ok());
    // Equal path is refused (would remove the data dir itself).
    assert!(ensure_within(data, data).is_err());
    // Sibling with a shared string prefix must not pass.
    assert!(ensure_within(data, &FsPath::new("/data/federated-beads-evil")).is_err());
}

#[test]
fn reset_removes_hub_dir() {
    let world = World::default();
    let paths = world.paths();
    world.mkdir(paths.data_dir());
    world.seed_hub(&[]);

    let target = reset(&paths).unwrap();
    assert_eq!(target, hub_dir(&paths));
    world.remove_tree(&target);

    assert!(!world.has(&hub_dir(&paths)), "hub dir removed");
    assert!(world.has(paths.data_dir()), "data dir preserved");
}

#[test]
fn read_hub_roster_parses_additional() {
    let world = World::default();
    world.seed_hub(&["/tmp/ra", "/tmp/rb"]);

    let got = hub_roster(&world, &hub_dir(&world.paths())).unwrap();

    assert_eq!(got, vec![FsPath::new("/tmp/ra"), FsPath::new("/tmp/rb")]);
}

#[test]
fn read_hub_roster_empty_when_no_repos_key() {
    let world = World::default();
    let hub = hub_dir(&world.paths());
    // A commented-out template: valid YAML, but no active `repos:` key.
    world.write(
        &hub_config_file(&hub),
        b"# Beads Configuration File\n# repos:\n#   additional: []\n",
    );

    assert_eq!(hub_roster(&world, &hub).unwrap(), Vec::new());
}

#[test]
fn read_hub_roster_missing_file_is_empty() {
    let world = World::default();
    assert_eq!(hub_roster(&world, &world.under("hub")).unwrap(), Vec::new());
}

#[test]
fn hub_errors_name_their_path() {
    let hub = FsPath::new("/hub");
    let denied = IoFailure { kind: IoKind::Other, message: "denied".into() };
    let io = hub_config_read(&hub, Err(denied.clone())).unwrap_err();
    assert!(io.message().contains("/hub/.beads/config.yaml"), "{}", io.message());
    let config = read_hub_roster(&hub, Err("bad yaml".into())).unwrap_err();
    assert!(config.message().contains("bad yaml"), "{}", config.message());
    match dir_created(hub.clone(), Err(denied)) {
        HubStep::Failed { error } => assert!(error.message().contains("denied")),
        other => panic!("expected a failure, got {other:?}"),
    }
    let unsafe_path = ensure_within(&hub, &FsPath::new("/etc")).unwrap_err();
    assert!(unsafe_path.message().contains("/etc"), "{}", unsafe_path.message());
    assert!(HubError::Bd(bd_err()).message().contains("boom"));
}

// ---------------------------------------------------------------------------
// A refresh.
// ---------------------------------------------------------------------------

#[test]
fn exports_all_then_syncs_once() {
    let world = World::default();
    let a = world.seed_repo("a", "ra");
    let b = world.seed_repo("b", "rb");
    let bd = FakeBd::new(&world);

    refresh_once(&world, &bd, &roster(&[&a, &b])).unwrap();

    let calls = bd.calls();
    assert_eq!(calls.len(), 5);
    assert_eq!(calls.last(), Some(&Call::RepoSync(hub_dir(&world.paths()))));
    for repo in [&a, &b] {
        assert!(calls.iter().any(|call| matches!(call, Call::Export(actual, output)
            if actual == repo && output.parent() == Some(repo.join_text(".beads")))));
        assert!(calls.contains(&Call::IssuePrefix(repo.clone())));
    }
}

#[test]
fn refresh_resolves_relative_roster_paths_against_config_dir() {
    let world = World::default();
    let config_dir = world.paths().config_file().parent().expect("config file has a parent");
    let repo = world.seed_repo_at(&config_dir.join_text("repo"), "repo");
    let bd = FakeBd::new(&world);

    refresh_once(&world, &bd, &roster(&[&FsPath::new("repo")])).unwrap();

    assert!(bd
        .calls()
        .iter()
        .any(|call| matches!(call, Call::Export(actual, _) if actual == &repo)));
}

#[test]
fn warnings_and_collisions_follow_roster_order_not_completion_order() {
    let world = World::default();
    let first = world.seed_repo("first", "dup");
    let second = world.seed_repo("second", "dup");
    let bd = FakeBd::new(&world)
        .with_export_err(&first, bd_err())
        .with_export_err(&second, bd_err())
        .with_issue_prefix(&first, "dup")
        .with_issue_prefix(&second, "dup");

    // The second repository completes before the first.
    let reversed = |jobs: Vec<(SourceJob, FsPath)>| jobs.into_iter().rev().collect();
    let (outcome, _) =
        drive_refresh_in(&world, &bd, &roster(&[&first, &second]), &Vec::new(), reversed).unwrap();

    assert!(matches!(&bd.calls()[0], Call::Export(repo, _) if repo == &second));
    let warning_repos: Vec<&FsPath> = outcome
        .errors
        .iter()
        .filter_map(|error| match error {
            RepoError::Export { repo, .. } => Some(repo),
            _ => None,
        })
        .collect();
    assert_eq!(warning_repos, vec![&first, &second]);
    assert_eq!(outcome.prefix_map.collisions()[0].repos, vec![first, second]);
}

#[test]
fn unchanged_export_preserves_canonical_bytes_and_mtime() {
    let world = World::default();
    let repo = world.seed_repo("a", "ra");
    let canonical = canonical_export(&repo);
    world.write(&canonical, b"same\n");
    let bd = FakeBd::new(&world).with_export_content(&repo, b"same\n");

    // Nothing is published: the run goes from comparing straight to removing.
    let temp = repo.join_text(".beads/.issues.jsonl.fbd.7.0.tmp");
    assert_eq!(
        compared(&repo, temp.clone(), Ok(true)),
        ExportStep::Remove { temp, errors: vec![] }
    );
    assert!(drive_export(&world, &bd, &repo).is_empty());
    assert_eq!(world.read(&canonical).unwrap(), b"same\n");
    assert_eq!(
        world.files_below(&repo).len(),
        2,
        "only metadata and canonical export remain"
    );
}

#[test]
fn temporary_export_reservation_retries_stale_name_collisions() {
    let world = World::default();
    let repo = world.seed_repo("a", "ra");
    let stale = repo.join_text(".beads/.issues.jsonl.fbd.7.0.tmp");
    world.write(&stale, b"stale");
    let bd = FakeBd::new(&world);

    assert!(drive_export(&world, &bd, &repo).is_empty());

    assert_eq!(
        bd.calls(),
        vec![Call::Export(repo.clone(), repo.join_text(".beads/.issues.jsonl.fbd.7.1.tmp"))],
        "the next unused counter value is reserved"
    );
    assert_eq!(
        world.read(&stale).unwrap(),
        b"stale",
        "a colliding stale file is never consumed or overwritten"
    );
}

#[test]
fn changed_export_publishes_new_canonical_bytes() {
    let world = World::default();
    let repo = world.seed_repo("a", "ra");
    let canonical = canonical_export(&repo);
    world.write(&canonical, b"old\n");
    let bd = FakeBd::new(&world).with_export_content(&repo, b"new\n");

    assert!(drive_export(&world, &bd, &repo).is_empty());
    assert_eq!(world.read(&canonical).unwrap(), b"new\n");
    assert!(world.files_below(&repo).iter().all(|p| !p.contains(".fbd.")));
}

#[test]
fn failed_export_leaves_canonical_untouched_and_removes_temporary_file() {
    let world = World::default();
    let repo = world.seed_repo("a", "ra");
    let canonical = canonical_export(&repo);
    world.write(&canonical, b"old\n");
    let bd = FakeBd::new(&world).with_export_err(&repo, bd_err());

    let errors = drive_export(&world, &bd, &repo);
    assert!(matches!(errors.as_slice(), [RepoError::Export { .. }]));
    assert_eq!(world.read(&canonical).unwrap(), b"old\n");
    assert!(world.files_below(&repo).iter().all(|p| !p.contains(".fbd.")));
}

#[test]
fn collects_per_repo_errors() {
    let world = World::default();
    let a = world.seed_repo("a", "ra");
    let b = world.seed_repo("b", "rb");
    let bd = FakeBd::new(&world).with_export_err(&b, bd_err());

    let outcome = refresh_once(&world, &bd, &roster(&[&a, &b])).unwrap();

    assert!(
        outcome
            .errors
            .iter()
            .any(|e| matches!(e, RepoError::Export { repo, .. } if repo == &b)),
        "b's export failure is recorded: {:?}",
        outcome.errors
    );
    assert!(
        bd.calls().iter().any(|c| matches!(c, Call::RepoSync(_))),
        "sync still runs despite a per-repo export failure"
    );
    assert!(
        outcome.prefix_map.repo_for("ra-2hc").is_some(),
        "the healthy repo still hydrates and is attributed"
    );
}

#[test]
fn reads_prefix_from_metadata() {
    let world = World::default();
    let a = world.seed_repo("a", "ra");
    let bd = FakeBd::new(&world);

    let outcome = refresh_once(&world, &bd, &roster(&[&a])).unwrap();

    assert_eq!(repo_of(&outcome.prefix_map, "ra-2hc"), Some(&a));
}

#[test]
fn builds_prefix_map() {
    let world = World::default();
    let a = world.seed_repo("a", "ra");
    let b = world.seed_repo("b", "rb");
    let bd = FakeBd::new(&world);

    let map = refresh_once(&world, &bd, &roster(&[&a, &b])).unwrap().prefix_map;

    assert_eq!(repo_of(&map, "ra-2hc"), Some(&a));
    assert_eq!(repo_of(&map, "rb-9zz"), Some(&b));
    assert!(map.repo_for("zz-1").is_none(), "unknown prefix -> None");
}

#[test]
fn flags_prefix_collisions() {
    let world = World::default();
    let a = world.seed_repo("a", "dup");
    let b = world.seed_repo("b", "dup");
    let bd = FakeBd::new(&world);

    let outcome = refresh_once(&world, &bd, &roster(&[&a, &b])).unwrap();

    let collisions = outcome.prefix_map.collisions();
    assert_eq!(collisions.len(), 1, "one collided prefix");
    assert_eq!(collisions[0].prefix, "dup");
    assert!(collisions[0].repos.contains(&a) && collisions[0].repos.contains(&b));
    assert!(
        outcome.prefix_map.repo_for("dup-x").is_none(),
        "a collided prefix is ambiguous -> None"
    );
}

#[test]
fn longest_prefix_wins() {
    let world = World::default();
    let a = world.seed_repo("a", "app");
    let b = world.seed_repo("b", "app2");
    let bd = FakeBd::new(&world);

    let map = refresh_once(&world, &bd, &roster(&[&a, &b])).unwrap().prefix_map;

    assert_eq!(
        repo_of(&map, "app2-xyz"),
        Some(&b),
        "app2-xyz must attribute to app2, never app"
    );
    assert_eq!(repo_of(&map, "app-xyz"), Some(&a));
}

#[test]
fn metadata_read_failure_is_a_repo_error() {
    let world = World::default();
    // `bad` exists (so export is attempted) but has no metadata.
    let bad = world.under("bad");
    world.mkdir(&bad);
    let good = world.seed_repo("good", "rg");
    let bd = FakeBd::new(&world);

    let outcome = refresh_once(&world, &bd, &roster(&[&bad, &good])).unwrap();

    assert!(
        outcome
            .errors
            .iter()
            .any(|e| matches!(e, RepoError::Metadata { repo, .. } if repo == &bad)),
        "unreadable metadata -> RepoError::Metadata: {:?}",
        outcome.errors
    );
    assert!(
        outcome.prefix_map.repo_for("rg-1").is_some(),
        "the readable repo is still attributed"
    );
}

#[test]
fn sync_failure_is_fatal() {
    let world = World::default();
    let a = world.seed_repo("a", "ra");
    let bd = FakeBd::new(&world).with_repo_sync_err(bd_err());

    let err = refresh_once(&world, &bd, &roster(&[&a])).unwrap_err();

    assert!(matches!(err, RefreshError::Sync(_)), "got {err:?}");
}

#[test]
fn collided_longer_prefix_is_not_masked_by_shorter() {
    let world = World::default();
    // A unique short prefix `app`, plus two repos both claiming `app-foo`.
    let a = world.seed_repo("a", "app");
    let b = world.seed_repo("b", "app-foo");
    let c = world.seed_repo("c", "app-foo");
    let bd = FakeBd::new(&world);

    let map = refresh_once(&world, &bd, &roster(&[&a, &b, &c])).unwrap().prefix_map;

    assert!(
        map.repo_for("app-foo-123").is_none(),
        "a collided longer prefix must not fall through to a shorter one"
    );
    assert_eq!(repo_of(&map, "app-xyz"), Some(&a));
}

#[test]
fn duplicate_roster_entry_is_not_a_collision() {
    let world = World::default();
    let a = world.seed_repo("a", "ra");
    let bd = FakeBd::new(&world);

    // The same repo listed twice must dedupe, not self-collide.
    let outcome = refresh_once(&world, &bd, &roster(&[&a, &a])).unwrap();

    assert!(
        outcome.prefix_map.collisions().is_empty(),
        "an aliased duplicate is not a collision: {:?}",
        outcome.prefix_map.collisions()
    );
    assert_eq!(
        repo_of(&outcome.prefix_map, "ra-1"),
        Some(&a),
        "the deduped repo still attributes its ids"
    );
    let exports = bd.calls().into_iter().filter(|c| matches!(c, Call::Export(..))).count();
    assert_eq!(exports, 1, "a duplicate roster entry exports once");
}

#[test]
fn hyphen_extended_authoritative_prefix_does_not_collide_with_shorter_prefix() {
    let world = World::default();
    let extended = world.seed_repo("extended", "foo_bar");
    let base = world.seed_repo("base", "foo");
    let bd = FakeBd::new(&world)
        .with_issue_prefix(&extended, "foo-bar")
        .with_issue_prefix(&base, "foo")
        .with_export_content(&extended, b"{\"id\":\"foo-bar-1\"}\n")
        .with_export_content(&base, b"{\"id\":\"foo-1\"}\n");
    let outcome = refresh_once(&world, &bd, &roster(&[&extended, &base])).unwrap();

    assert_eq!(
        repo_of(&outcome.prefix_map, "foo-bar-1"),
        Some(&extended),
        "the live foo-bar prefix must not collide with a different repo's foo prefix"
    );
    assert_eq!(
        bd.prefix_reads(&extended),
        1,
        "the authoritative prefix is read for every source repo"
    );
}

#[test]
fn unchanged_nonempty_export_reuses_verified_prefix() {
    let world = World::default();
    let repo = world.seed_repo("repo", "reading_lite");
    let bd = FakeBd::new(&world)
        .with_issue_prefix(&repo, "reading-lite")
        .with_export_content(&repo, b"{\"id\":\"reading-lite-1\"}\n");

    let (_, verified) = drive_refresh(&world, &bd, &roster(&[&repo]), &Vec::new()).expect("first refresh");
    drive_refresh(&world, &bd, &roster(&[&repo]), &verified.repos).expect("warm refresh");

    assert_eq!(
        bd.prefix_reads(&repo),
        1,
        "the second valid export proves the retained prefix without reopening the source database"
    );
}

#[test]
fn renamed_exported_ids_reread_only_changed_repo() {
    let world = World::default();
    let renamed = world.seed_repo("renamed", "old");
    let stable = world.seed_repo("stable", "stable");
    let config = roster(&[&renamed, &stable]);
    let first_bd = FakeBd::new(&world)
        .with_issue_prefix(&renamed, "old")
        .with_issue_prefix(&stable, "stable")
        .with_export_content(&renamed, b"{\"id\":\"old-1\"}\n")
        .with_export_content(&stable, b"{\"id\":\"stable-1\"}\n");
    let (_, verified) = drive_refresh(&world, &first_bd, &config, &Vec::new()).unwrap();

    let second_bd = FakeBd::new(&world)
        .with_issue_prefix(&renamed, "new")
        .with_issue_prefix(&stable, "stable")
        .with_export_content(&renamed, b"{\"id\":\"new-1\"}\n")
        .with_export_content(&stable, b"{\"id\":\"stable-1\"}\n");
    let (outcome, _) = drive_refresh(&world, &second_bd, &config, &verified.repos).unwrap();

    assert_eq!(repo_of(&outcome.prefix_map, "new-1"), Some(&renamed));
    let reads: Vec<Call> =
        second_bd.calls().into_iter().filter(|c| matches!(c, Call::IssuePrefix(_))).collect();
    assert_eq!(
        reads,
        vec![Call::IssuePrefix(renamed)],
        "the changed export invalidates only its own cached prefix"
    );
}

#[test]
fn empty_export_rereads_prefix_every_refresh() {
    let world = World::default();
    let repo = world.seed_repo("empty", "empty");
    let bd = FakeBd::new(&world).with_issue_prefix(&repo, "empty").with_export_content(&repo, b"");

    let (_, candidate) = drive_refresh(&world, &bd, &roster(&[&repo]), &Vec::new()).unwrap();
    assert!(candidate.repos.is_empty(), "empty output proves no prefix");
    drive_refresh(&world, &bd, &roster(&[&repo]), &candidate.repos).unwrap();

    assert_eq!(bd.prefix_reads(&repo), 2);
}

#[test]
fn failed_export_rereads_prefix_and_does_not_retain_it() {
    let world = World::default();
    let repo = world.seed_repo("repo", "ra");
    let healthy = FakeBd::new(&world)
        .with_issue_prefix(&repo, "ra")
        .with_export_content(&repo, b"{\"id\":\"ra-1\"}\n");
    let (_, previous) = drive_refresh(&world, &healthy, &roster(&[&repo]), &Vec::new()).unwrap();

    let failing =
        FakeBd::new(&world).with_issue_prefix(&repo, "new").with_export_err(&repo, bd_err());
    let (outcome, candidate) =
        drive_refresh(&world, &failing, &roster(&[&repo]), &previous.repos).unwrap();

    assert!(candidate.repos.is_empty());
    assert!(
        outcome.prefix_map.repo_for("ra-1").is_none(),
        "a changed authoritative prefix cannot attribute stale canonical ids after export failure"
    );
    assert_eq!(failing.prefix_reads(&repo), 1);
}

#[test]
fn malformed_export_rereads_prefix_and_does_not_retain_it() {
    let world = World::default();
    let repo = world.seed_repo("repo", "ra");
    let bd = FakeBd::new(&world)
        .with_issue_prefix(&repo, "ra")
        .with_export_content(&repo, b"not-json\n");

    let (outcome, candidate) = drive_refresh(&world, &bd, &roster(&[&repo]), &Vec::new()).unwrap();

    assert!(candidate.repos.is_empty());
    assert!(outcome.prefix_map.repo_for("ra-1").is_some());
    assert_eq!(bd.prefix_reads(&repo), 1);
}

#[test]
fn authoritative_prefix_mismatching_export_is_unattributed() {
    let world = World::default();
    let repo = world.seed_repo("repo", "wrong");
    let bd = FakeBd::new(&world)
        .with_issue_prefix(&repo, "authoritative")
        .with_export_content(&repo, b"{\"id\":\"different-1\"}\n");

    let outcome = refresh_once(&world, &bd, &roster(&[&repo])).unwrap();

    assert!(outcome.prefix_map.repo_for("different-1").is_none());
    assert!(outcome.errors.iter().any(|error| matches!(error,
        RepoError::Metadata { repo: actual, detail }
            if actual == &repo && detail.contains("does not match"))));
}

#[test]
fn declines_when_lock_already_held() {
    let world = World::default();
    let a = world.seed_repo("a", "ra");
    world.lock_held.set(true);
    let bd = FakeBd::new(&world);

    let err = refresh_once(&world, &bd, &roster(&[&a])).unwrap_err();

    assert!(matches!(err, RefreshError::AlreadyRefreshing), "got {err:?}");
    assert!(
        bd.calls().is_empty(),
        "a declined refresh performs no exports or sync: {:?}",
        bd.calls()
    );
}

#[test]
fn attributes_hyphenated_repo_from_bd_prefix() {
    let world = World::default();
    // dolt_database is the sanitized `reading_lite`; bd reports `reading-lite`.
    let repo = world.seed_repo("reading-lite", "reading_lite");
    let bd = FakeBd::new(&world).with_issue_prefix(&repo, "reading-lite");

    let map = refresh_once(&world, &bd, &roster(&[&repo])).unwrap().prefix_map;

    assert_eq!(
        repo_of(&map, "reading-lite-hck.1"),
        Some(&repo),
        "a hyphenated id attributes to its repo, not the unknown bucket"
    );
    assert!(
        map.repo_for("reading_lite-hck.1").is_none(),
        "the underscored (dolt_database) form must not attribute"
    );
}

#[test]
fn underscore_prefix_is_not_remapped() {
    let world = World::default();
    let repo = world.seed_repo("r", "foo_bar");
    let bd = FakeBd::new(&world).with_issue_prefix(&repo, "foo_bar");

    let map = refresh_once(&world, &bd, &roster(&[&repo])).unwrap().prefix_map;

    assert_eq!(repo_of(&map, "foo_bar-abc"), Some(&repo));
    assert!(
        map.repo_for("foo-bar-abc").is_none(),
        "the hyphen form must not attribute to an underscore-prefixed repo"
    );
}

#[test]
fn custom_prefix_unrelated_to_dir_name_attributes() {
    let world = World::default();
    let repo = world.seed_repo("whatever", "ready_fix");
    let bd = FakeBd::new(&world).with_issue_prefix(&repo, "ready-fix");

    let outcome = refresh_once(&world, &bd, &roster(&[&repo])).unwrap();

    assert_eq!(repo_of(&outcome.prefix_map, "ready-fix-1"), Some(&repo));
}

#[test]
fn two_hyphenated_repos_attribute_independently() {
    let world = World::default();
    let a = world.seed_repo("reading-lite", "reading_lite");
    let b = world.seed_repo("session-tui", "session_tui");
    let bd = FakeBd::new(&world)
        .with_issue_prefix(&a, "reading-lite")
        .with_issue_prefix(&b, "session-tui");

    let map = refresh_once(&world, &bd, &roster(&[&a, &b])).unwrap().prefix_map;

    assert!(map.collisions().is_empty(), "distinct prefixes don't collide");
    assert_eq!(repo_of(&map, "reading-lite-1"), Some(&a));
    assert_eq!(repo_of(&map, "session-tui-9"), Some(&b));
}

#[test]
fn attribution_map_reads_prefixes() {
    let world = World::default();
    let a = world.seed_repo("a", "ra");
    // `bad` has no metadata, so its prefix read fails.
    let bad = world.under("bad");
    world.mkdir(&bad);
    let bd = FakeBd::new(&world);

    let (map, errors) = attribution_map(&bd, &roster(&[&a, &bad]), &vec![a.clone(), bad.clone()]);

    assert_eq!(repo_of(&map, "ra-2hc"), Some(&a), "the readable repo is attributed");
    assert!(
        errors
            .iter()
            .any(|e| matches!(e, RepoError::Metadata { repo, .. } if repo == &bad)),
        "an unreadable prefix is a non-fatal RepoError: {errors:?}"
    );
}

#[test]
fn hub_generation_marker_round_trips_atomically() {
    let world = World::default();
    let token = HubGenerationToken::new("test-generation".to_string());

    assert_eq!(read_marker(&world).unwrap(), None);
    publish_marker(&world, &token).unwrap();

    assert_eq!(read_marker(&world).unwrap(), Some(token));
    let hub = hub_dir(&world.paths());
    assert_eq!(generation_marker(&hub), hub.join_text(".fbd-generation"));
}

#[test]
fn tokens_of_different_counts_processes_and_times_differ() {
    let token = |p, t, c| HubGenerationToken::fresh(p, t, c);
    let base = token(1, 23, 4);
    assert_ne!(base, token(1, 23, 5));
    assert_ne!(base, token(12, 3, 4));
    assert_ne!(base, token(1, 2, 34));
    assert_eq!(base, token(1, 23, 4));
}

#[test]
fn a_lock_that_fails_is_told_apart_from_one_that_is_held() {
    let hub = FsPath::new("/hub");
    let failure = |kind| IoFailure { kind, message: "nope".into() };
    assert_eq!(lock_outcome(&hub, LockAttempt::Acquired), Ok(true));
    assert_eq!(
        lock_outcome(&hub, LockAttempt::LockFailed(failure(IoKind::WouldBlock))),
        Ok(false)
    );
    for attempt in [
        LockAttempt::OpenFailed(failure(IoKind::WouldBlock)),
        LockAttempt::LockFailed(failure(IoKind::Other)),
    ] {
        assert_eq!(
            lock_outcome(&hub, attempt),
            Err(RefreshError::Lock { path: lock_file(&hub), detail: "nope".into() })
        );
    }
}

#[test]
fn a_panicked_worker_ends_the_refresh_before_the_sync() {
    let hub = FsPath::new("/hub");
    match sources_run(hub, None) {
        RefreshStep::Failed { error } => {
            assert_eq!(error, RefreshError::WorkerPanic);
            assert!(error.message().contains("panicked"));
        }
        other => panic!("expected a failure, got {other:?}"),
    }
}

#[test]
fn every_failed_step_of_an_export_is_reported_and_cleaned_up() {
    let repo = FsPath::new("/r");
    let temp = FsPath::new("/r/.beads/.issues.jsonl.fbd.1.0.tmp");
    let failure = || IoFailure { kind: IoKind::Other, message: "denied".into() };
    let operation = |errors: &Vec<RepoError>| match errors.as_slice() {
        [RepoError::ExportFile { operation, detail, .. }] => {
            assert_eq!(detail, "denied");
            *operation
        }
        other => panic!("expected one file error, got {other:?}"),
    };
    match reserved(&repo, temp.clone(), Err(failure()), 1, 1) {
        ExportStep::Done { errors } => assert_eq!(operation(&errors), ExportOperation::Reserve),
        other => panic!("unexpected {other:?}"),
    }
    for (step, expected) in [
        (compared(&repo, temp.clone(), Err(failure())), ExportOperation::Compare),
        (preserved(&repo, temp.clone(), Err(failure())), ExportOperation::Preserve),
        (published(&repo, temp.clone(), Err(failure())), ExportOperation::Publish),
    ] {
        match step {
            ExportStep::Remove { temp: kept, errors } => {
                assert_eq!(kept, temp);
                assert_eq!(operation(&errors), expected);
            }
            other => panic!("unexpected {other:?}"),
        }
    }
    match removed(&repo, temp.clone(), vec![], Err(failure())) {
        ExportStep::Done { errors } => assert_eq!(operation(&errors), ExportOperation::Remove),
        other => panic!("unexpected {other:?}"),
    }
    assert_eq!(
        removed(&repo, temp, vec![], Err(missing())),
        ExportStep::Done { errors: vec![] },
        "a sibling that is gone already is no failure"
    );
    assert_eq!(
        stable_export(&FsPath::new("/gone"), false, 1, 0),
        ExportStep::Done { errors: vec![] },
        "a repository that does not exist is not exported"
    );
}

#[test]
fn at_most_the_limit_works_at_once() {
    assert_eq!(worker_count(5, 2), 2);
    assert_eq!(worker_count(1, 4), 1);
    assert_eq!(worker_count(4, 4), 4);
}

#[test]
fn outcomes_are_ordered_by_the_roster() {
    let outcome = |roster_index| SourceOutcome {
        roster_index,
        entry: RepoEntry { path: FsPath::new("/r") },
        prefix: None,
        verified_prefix: None,
        export_called: false,
        issue_prefix_called: false,
        errors: vec![],
    };
    let ordered = order_outcomes(vec![outcome(2), outcome(0), outcome(1)]);
    let indices: Vec<usize> = ordered.iter().map(|o| o.roster_index).collect();
    assert_eq!(indices, vec![0, 1, 2]);
}

#[test]
fn evidence_is_decided_by_every_line() {
    let judge = |lines: &[(&str, Option<&str>)]| {
        let mut scan = EvidenceScan::new("ra");
        for (line, id) in lines {
            scan.read(line, *id);
        }
        scan.evidence()
    };
    assert_eq!(judge(&[]), ExportPrefixEvidence::Empty);
    assert_eq!(judge(&[("  ", None)]), ExportPrefixEvidence::Empty);
    assert_eq!(judge(&[("x", Some("ra-1"))]), ExportPrefixEvidence::NonEmptyAllMatch);
    assert_eq!(
        judge(&[("x", Some("ra-1")), ("y", Some("rb-1"))]),
        ExportPrefixEvidence::Mismatch
    );
    assert_eq!(judge(&[("x", Some("ra-1")), ("y", None)]), ExportPrefixEvidence::Malformed);
}

#[test]
fn a_failed_judgement_drops_the_prefix() {
    let job = SourceJob { roster_index: 0, entry: RepoEntry { path: FsPath::new("/r") } };
    let previous =
        vec![VerifiedRepoPrefix { normalized_path: FsPath::new("/r"), prefix: "ra".into() }];
    let step =
        run_source_job(job, FsPath::new("/r"), &previous, Vec::new(), true, true);
    let SourceStep::CheckCached { run, prefix } = step else {
        panic!("a known prefix is judged first");
    };
    assert_eq!(prefix, "ra");
    let denied = || Err(IoFailure { kind: IoKind::Other, message: "denied".into() });
    let SourceStep::ReadPrefix { run } = cached_checked(run, prefix, denied()) else {
        panic!("an unreadable export proves nothing");
    };
    let SourceStep::CheckRead { run, prefix } = prefix_read(run, Ok("ra".into())) else {
        panic!("what bd says is judged too");
    };
    let failed = Err(IoFailure { kind: IoKind::Other, message: "denied".into() });
    let SourceStep::Done { outcome } = read_checked(run, prefix, failed) else {
        panic!("nothing is left to do");
    };
    assert_eq!(outcome.verified_prefix, None);
    assert!(outcome.errors.iter().any(|e| matches!(e,
        RepoError::ExportFile { operation: ExportOperation::Validate, .. })));
}

// ---------------------------------------------------------------------------
// A session.
// ---------------------------------------------------------------------------

#[test]
fn startup_restores_repo_view_before_cache_hydration() {
    let row = |id: &str, title: &str, prefix: &str, name: &str| Row {
        issue: issue(id, 1, title),
        repo_id: Some(prefix.into()),
        repo_name: name.into(),
        attribution_generation: None,
    };
    let cached = Snapshot {
        rows: vec![row("a-1", "A", "ra", "repo-a"), row("b-1", "B", "rb", "repo-b")],
        fetched_at: Timestamp::from_unix(NOW - 60, 0),
    };

    let app = initial_interface(RepoFilter::Only("rb".into()), Some(cached));

    assert_eq!(app.repo_view(), &RepoFilter::Only("rb".into()));
    let ids: Vec<&str> = app.filtered_rows().iter().map(|r| r.issue.id.as_str()).collect();
    assert_eq!(ids, vec!["b-1"]);
    assert!(app.is_stale());
}

#[test]
fn gather_snapshot_collects_repo_warnings() {
    let world = World::default();
    let ra = world.seed_repo("ra", "ra");
    let gone = world.under("gone");
    let bd = FakeBd::new(&world).with_ready(vec![issue("ra-1", 1, "t")]);

    let (snapshot, warnings) = gather_snapshot(&world, &bd, &roster(&[&ra, &gone]));

    let snap = snapshot.expect("healthy repo still yields a snapshot");
    assert!(
        snap.rows.iter().any(|r| r.issue.id == "ra-1"),
        "the healthy repo's rows appear"
    );
    assert!(
        warnings.iter().any(|w| w.contains("gone")),
        "the missing roster path is warned about: {warnings:?}"
    );
}

#[test]
fn gather_snapshot_none_on_fatal_sync() {
    let world = World::default();
    let ra = world.seed_repo("ra", "ra");
    let bd = FakeBd::new(&world).with_repo_sync_err(bd_err());

    let (snapshot, warnings) = gather_snapshot(&world, &bd, &roster(&[&ra]));

    assert!(snapshot.is_none(), "a fatal sync failure yields no snapshot");
    assert!(
        warnings.iter().any(|w| w.contains("refresh failed")),
        "the fatal refresh is surfaced: {warnings:?}"
    );
}

#[test]
fn gather_snapshot_none_when_refresh_declined() {
    let world = World::default();
    let ra = world.seed_repo("ra", "ra");
    world.lock_held.set(true);
    let bd = FakeBd::new(&world).with_ready(vec![issue("ra-1", 1, "t")]);

    let (snapshot, warnings) = gather_snapshot(&world, &bd, &roster(&[&ra]));

    assert!(
        snapshot.is_none(),
        "a declined refresh yields no snapshot, so last-good rows are kept"
    );
    assert!(
        warnings.iter().any(|w| w.to_lowercase().contains("refreshing")),
        "the lock contention is surfaced: {warnings:?}"
    );
}

fn detail(id: &str, title: &str, description: Option<&str>) -> IssueDetail {
    let mut one = issue(id, 2, title);
    one.description = description.map(str::to_string);
    IssueDetail { issue: one, dependencies: Vec::new() }
}

#[test]
fn detail_worker_sends_ready_for_id() {
    let world = World::default();
    let mut bd = FakeBd::new(&world);
    bd.show = Ok(detail("ra-1", "Blocked task", None));

    let shown = gather_detail(&bd, &world.paths(), "ra-1").expect("a detail on success");
    assert_eq!(shown.issue.title, "Blocked task");
    assert_eq!(bd.calls(), vec![Call::Show(hub_dir(&world.paths()), "ra-1".into())]);
}

#[test]
fn detail_worker_maps_error() {
    let world = World::default();
    let bd = FakeBd::new(&world);

    let msg = gather_detail(&bd, &world.paths(), "ra-1").expect_err("a message on failure");
    assert!(
        msg.contains("boom") || msg.to_lowercase().contains("fail"),
        "the failure is surfaced: {msg}"
    );
}

/// A session whose last refresh saw this roster.
fn refreshed_session(world: &World, bd: &FakeBd, config: &Config) -> RuntimeRefreshState {
    let mut state = RuntimeRefreshState::new();
    gather_snapshot_with_state(world, bd, config, &mut state).0.expect("a snapshot");
    state
}

#[test]
fn search_worker_sends_results_for_token() {
    let world = World::default();
    let ra = world.seed_repo("ra", "ra");
    let bd = FakeBd::new(&world).with_search(vec![issue("ra-1", 1, "Found one")]);
    let state = refreshed_session(&world, &bd, &roster(&[&ra]));

    let SearchStep::Lock { search } = start_search(&state, &world.paths()) else {
        panic!("the session knows the hub");
    };
    assert_eq!(search.hub(), &hub_dir(&world.paths()));
    let SearchStep::ReadMarker { search } = search_locked(search, world.lock()) else {
        panic!("the lock is free");
    };
    let SearchStep::Query { search } = search_marker(search, read_marker(&world)) else {
        panic!("the token is that of the session");
    };
    assert_eq!(search.marker(), &state.current_hub().unwrap().hub_token);
    let (msg, verified) = search_message(7, run_search(&bd, "foo", search, now()));

    let Msg::SearchResults { token, rows } = msg else {
        panic!("expected search results");
    };
    assert_eq!(token, 7, "the request token is echoed back");
    let rows = rows.expect("results on success");
    let found = rows.iter().find(|r| r.issue.id == "ra-1").expect("row present");
    assert_eq!(
        found.repo_name, "ra",
        "results are attributed via the roster prefix map"
    );
    assert_eq!(
        verified.expect("the attribution of the rows").generation,
        state.current_hub().unwrap().generation
    );
    assert_eq!(
        bd.calls().last(),
        Some(&Call::Search(hub_dir(&world.paths()), "foo".into()))
    );
}

#[test]
fn search_worker_maps_error() {
    let world = World::default();
    let ra = world.seed_repo("ra", "ra");
    let mut bd = FakeBd::new(&world);
    bd.search = Err(bd_err());
    let state = refreshed_session(&world, &bd, &roster(&[&ra]));

    let result = gather_search_with_state(&world, &bd, "foo", &state);
    let msg = result.expect_err("a message on failure");
    assert!(
        msg.to_lowercase().contains("search failed") || msg.contains("boom"),
        "the failure is surfaced: {msg}"
    );
    let (sent, verified) = search_message(3, Err(msg.clone()));
    assert!(matches!(sent, Msg::SearchResults { token: 3, rows: Err(m) } if m == msg));
    assert!(verified.is_none());
}

#[test]
fn cached_search_prefixes_deduplicate_duplicate_roster_entries() {
    let world = World::default();
    let ra = world.seed_repo("ra", "ra");
    let bd = FakeBd::new(&world).with_search(vec![issue("ra-1", 1, "found")]);
    let state = refreshed_session(&world, &bd, &roster(&[&ra, &ra]));

    let rows = gather_search_with_state(&world, &bd, "found", &state).expect("search succeeds");

    assert_eq!(
        rows[0].repo_name, "ra",
        "a duplicate roster entry must not turn one cached prefix into a collision"
    );
}

#[test]
fn a_search_is_refused_by_the_first_check_that_fails() {
    let world = World::default();
    let ra = world.seed_repo("ra", "ra");
    let bd = FakeBd::new(&world).with_search(vec![issue("ra-1", 1, "found")]);
    let ask = |state: &RuntimeRefreshState| gather_search_with_state(&world, &bd, "x", state);

    world.lock_held.set(true);
    assert_eq!(
        ask(&RuntimeRefreshState::new()),
        Err("search unavailable until a verified refresh completes".into())
    );
    world.lock_held.set(false);
    let state = refreshed_session(&world, &bd, &roster(&[&ra]));
    world.write(&generation_marker(&hub_dir(&world.paths())), b"external");
    world.lock_held.set(true);
    assert_eq!(
        ask(&state),
        Err("search unavailable while another fbd is refreshing; retry shortly".into())
    );
    world.lock_held.set(false);
    let refused = Err("hub changed in another fbd process; refresh required".into());
    assert_eq!(ask(&state), refused);
    world.remove(&generation_marker(&hub_dir(&world.paths()))).unwrap();
    assert_eq!(ask(&state), refused);
    assert!(bd.calls().iter().all(|c| !matches!(c, Call::Search(..))), "the hub is not asked");
}

#[test]
fn a_refresh_gets_the_prefixes_that_the_last_one_verified() {
    let world = World::default();
    let ra = world.seed_repo("ra", "ra");
    let config = roster(&[&ra]);
    let bd = FakeBd::new(&world).with_export_content(&ra, b"{\"id\":\"ra-1\"}\n");
    let hint = |state: &RuntimeRefreshState| match state.reconciled(Ok(Vec::new())) {
        GatherStep::Refresh { previous, .. } => previous,
        other => panic!("{other:?}"),
    };
    assert!(hint(&RuntimeRefreshState::new()).is_empty());
    let state = refreshed_session(&world, &bd, &config);
    assert_eq!(hint(&state), state.current_hub().unwrap().candidate.repos);
    assert_eq!(hint(&state)[0].prefix, "ra");
}

#[test]
fn refresh_task_caches_a_successful_snapshot_to_disk() {
    let world = World::default();
    let ra = world.seed_repo("ra", "ra");
    let bd = FakeBd::new(&world).with_ready(vec![issue("ra-1", 1, "Ready one")]);
    let config = roster(&[&ra]);

    let snapshot = gather_snapshot(&world, &bd, &config).0.expect("a snapshot on success");
    let written = fbd::cache::save(&None, &snapshot, &config);
    let cached = fbd::cache::load(written, now(), &config).expect("a fresh cache hit");

    assert!(
        snapshot.rows.iter().all(|row| row.attribution_generation.is_some()),
        "live rows retain in-process provenance"
    );
    assert!(
        cached.rows.iter().all(|row| row.attribution_generation.is_none()),
        "disk cache never claims an in-process attribution generation"
    );
    let mut serializable_snapshot = snapshot;
    for row in &mut serializable_snapshot.rows {
        row.attribution_generation = None;
    }
    assert_eq!(
        cached, serializable_snapshot,
        "the cache preserves every serialized snapshot field"
    );
}

#[test]
fn persist_repo_view_effect_writes_state_and_reports_completion() {
    let repo = RepoFilter::Only("repo-b".into());

    let state = fbd::ui_state::save(&repo);
    let parsed = ParsedUiState::Current { repository: state.repository };

    assert_eq!(
        repo_view_saved(repo.clone(), Ok(())),
        Msg::RepoViewPersisted { repo: repo.clone(), result: Ok(()) }
    );
    assert_eq!(fbd::ui_state::load(parsed), repo);
}

#[test]
fn persist_repo_view_failure_is_reported_without_aborting() {
    let repo = RepoFilter::Only("repo-b".into());

    match repo_view_saved(repo.clone(), Err("not a\u{1b} directory".to_string())) {
        Msg::RepoViewPersisted { repo: attempted, result: Err(message) } => {
            assert_eq!(attempted, repo);
            assert!(message.contains("couldn't save repository view"));
            assert!(!message.chars().any(char::is_control));
        }
        other => panic!("expected non-fatal persistence result, got {other:?}"),
    }
}

#[test]
fn tui_session_reuses_version_and_verified_prefix() {
    let world = World::default();
    let ra = world.seed_repo("ra", "ra");
    let bd = FakeBd::new(&world)
        .with_ready(vec![issue("ra-1", 1, "ready")])
        .with_export_content(&ra, b"{\"id\":\"ra-1\"}\n");
    let mut state = RuntimeRefreshState::default();

    assert!(gather_snapshot_with_state(&world, &bd, &roster(&[&ra]), &mut state).0.is_some());
    assert!(gather_snapshot_with_state(&world, &bd, &roster(&[&ra]), &mut state).0.is_some());

    let versions = bd.calls().iter().filter(|c| matches!(c, Call::Version)).count();
    assert_eq!(versions, 1);
    assert_eq!(
        bd.prefix_reads(&ra),
        1,
        "the warm refresh revalidates the cached prefix from its fresh export"
    );
}

#[test]
fn missing_repo_becoming_present_invalidates_reconcile_witness() {
    let world = World::default();
    world.seed_hub(&[]);
    let repo = world.under("later");
    let config = roster(&[&repo]);
    let mut state = RuntimeRefreshState::default();
    let bd = FakeBd::new(&world);

    let first = ensure_reconciled(&world, &bd, &config, &mut state).unwrap();
    let second = ensure_reconciled(&world, &bd, &config, &mut state).unwrap();
    assert_eq!(first, second);
    assert!(first[0].contains("does not exist"));
    assert!(bd.calls().is_empty(), "stable missing state skips reconcile");

    world.mkdir(&repo);
    ensure_reconciled(&world, &bd, &config, &mut state).unwrap();

    assert_eq!(
        adds(&bd),
        vec![repo],
        "missing→present reachability invalidates the retained witness"
    );
}

#[test]
fn external_hub_reset_and_roster_drift_invalidate_reconcile_witness() {
    let world = World::default();
    let repo = world.seed_repo("repo", "ra");
    let config = roster(&[&repo]);
    world.seed_hub(&["/base/repo"]);
    let mut state = RuntimeRefreshState::default();
    let bd = FakeBd::new(&world);
    ensure_reconciled(&world, &bd, &config, &mut state).unwrap();
    assert!(bd.calls().is_empty());

    world.seed_hub(&[]);
    ensure_reconciled(&world, &bd, &config, &mut state).unwrap();
    assert_eq!(adds(&bd), vec![repo]);

    world.remove_tree(&hub_dir(&world.paths()));
    ensure_reconciled(&world, &bd, &config, &mut state).unwrap();
    assert!(bd.calls().iter().any(|c| matches!(c, Call::Init(..))));
}

#[test]
fn tui_session_caches_incompatible_version_result() {
    let world = World::default();
    let ra = world.seed_repo("ra", "ra");
    let config = roster(&[&ra]);
    let mut state = RuntimeRefreshState::default();
    let failing = FakeBd::new(&world).with_version(Err(bd_err()));

    assert!(gather_snapshot_with_state(&world, &failing, &config, &mut state).0.is_none());

    let recovered = FakeBd::new(&world)
        .with_ready(vec![issue("ra-1", 1, "ready")])
        .with_export_content(&ra, b"{\"id\":\"ra-1\"}\n");
    assert!(
        gather_snapshot_with_state(&world, &recovered, &config, &mut state).0.is_none(),
        "compatibility is a session invariant; recovery requires a restart"
    );
    assert!(
        recovered.calls().iter().all(|c| !matches!(c, Call::Version)),
        "the cached failure avoids another version subprocess"
    );
}

#[test]
fn tui_session_keeps_authoritative_prefixes_for_search_attribution() {
    let world = World::default();
    let ra = world.seed_repo("ra", "ra");
    let rb = world.seed_repo("rb", "rb");
    let config = roster(&[&ra, &rb]);
    let bd = FakeBd::new(&world)
        .with_ready(vec![issue("rb-1", 1, "ready")])
        .with_search(vec![issue("rb-1", 1, "found")])
        .with_export_content(&ra, b"{\"id\":\"ra-1\"}\n")
        .with_export_content(&rb, b"");
    let mut state = RuntimeRefreshState::default();

    assert!(gather_snapshot_with_state(&world, &bd, &config, &mut state).0.is_some());
    let rows = gather_search_with_state(&world, &bd, "found", &state).expect("search succeeds");

    assert_eq!(
        rows[0].repo_name, "rb",
        "an authoritative prefix remains available even when its export was not reusable"
    );
}

#[test]
fn search_after_refresh_uses_current_generation_without_prefix_reads() {
    let world = World::default();
    let repo = world.seed_repo("repo", "ra");
    let config = roster(&[&repo]);
    let bd = FakeBd::new(&world)
        .with_ready(vec![issue("ra-1", 1, "ready")])
        .with_search(vec![issue("ra-1", 1, "found")])
        .with_export_content(&repo, b"{\"id\":\"ra-1\"}\n");
    let mut state = RuntimeRefreshState::default();
    let snapshot =
        gather_snapshot_with_state(&world, &bd, &config, &mut state).0.expect("refresh");
    let generation = snapshot.rows[0].attribution_generation.expect("fresh rows are stamped");
    let prefix_calls_before = bd.prefix_reads(&repo);

    let rows = gather_search_with_state(&world, &bd, "found", &state).unwrap();

    assert_eq!(rows[0].attribution_generation, Some(generation));
    assert_eq!(bd.prefix_reads(&repo), prefix_calls_before);
}

#[test]
fn old_ready_row_copied_after_refresh_uses_old_generation() {
    let world = World::default();
    let repo = world.seed_repo("repo", "old");
    let config = roster(&[&repo]);
    let mut state = RuntimeRefreshState::default();
    let first_bd = FakeBd::new(&world)
        .with_issue_prefix(&repo, "old")
        .with_ready(vec![issue("old-1", 1, "old")])
        .with_export_content(&repo, b"{\"id\":\"old-1\"}\n");
    let old_row = gather_snapshot_with_state(&world, &first_bd, &config, &mut state)
        .0
        .unwrap()
        .rows
        .remove(0);

    let second_bd = FakeBd::new(&world)
        .with_issue_prefix(&repo, "new")
        .with_ready(vec![issue("new-1", 1, "new")])
        .with_export_content(&repo, b"{\"id\":\"new-1\"}\n");
    assert!(gather_snapshot_with_state(&world, &second_bd, &config, &mut state).0.is_some());

    let old_map = state
        .map_for(old_row.attribution_generation.unwrap())
        .expect("old visible generation retained");
    let (payload, _) = copy(&world, &FakeBd::new(&world), &old_row, false, Some(old_map));

    assert_eq!(payload, format!("cd {} && bd show old-1", repo.display()));
}

#[test]
fn copied_row_falls_back_to_hub_after_source_disappears() {
    let world = World::default();
    let repo = world.seed_repo("repo", "old");
    let config = roster(&[&repo]);
    let mut state = RuntimeRefreshState::default();
    let bd = FakeBd::new(&world)
        .with_issue_prefix(&repo, "old")
        .with_ready(vec![issue("old-1", 1, "old")])
        .with_export_content(&repo, b"{\"id\":\"old-1\"}\n");
    let row = gather_snapshot_with_state(&world, &bd, &config, &mut state)
        .0
        .unwrap()
        .rows
        .remove(0);
    let map = state
        .map_for(row.attribution_generation.unwrap())
        .expect("visible generation retained");
    world.remove_tree(&repo);

    let (payload, _) = copy(&world, &FakeBd::new(&world), &row, false, Some(map));

    assert_eq!(payload, format!("bd -C {} show old-1", hub_dir(&world.paths()).display()));
}

#[test]
fn search_rejects_mismatched_external_hub_token() {
    let world = World::default();
    let repo = world.seed_repo("repo", "ra");
    let config = roster(&[&repo]);
    let bd = FakeBd::new(&world)
        .with_ready(vec![issue("ra-1", 1, "ready")])
        .with_search(vec![issue("ra-1", 1, "found")])
        .with_export_content(&repo, b"{\"id\":\"ra-1\"}\n");
    let mut state = RuntimeRefreshState::default();
    assert!(gather_snapshot_with_state(&world, &bd, &config, &mut state).0.is_some());
    world.write(&generation_marker(&hub_dir(&world.paths())), b"external");

    let error = gather_search_with_state(&world, &bd, "found", &state)
        .expect_err("a stale local map must fail closed");

    assert!(error.contains("refresh required"), "{error}");
    assert!(
        bd.calls().iter().all(|c| !matches!(c, Call::Search(..))),
        "the marker is verified before reading the changed hub"
    );
}

#[test]
fn search_rejects_hub_advanced_by_stateless_refresh() {
    let world = World::default();
    let repo = world.seed_repo("repo", "ra");
    let config = roster(&[&repo]);
    let bd = FakeBd::new(&world)
        .with_ready(vec![issue("ra-1", 1, "ready")])
        .with_search(vec![issue("ra-1", 1, "found")])
        .with_export_content(&repo, b"{\"id\":\"ra-1\"}\n");
    let mut state = RuntimeRefreshState::default();
    assert!(gather_snapshot_with_state(&world, &bd, &config, &mut state).0.is_some());

    refresh_once(&world, &bd, &config).expect("another refresh");
    let error = gather_search_with_state(&world, &bd, "found", &state)
        .expect_err("the stateless refresh must advance the marker");

    assert!(error.contains("refresh required"), "{error}");
}

#[test]
fn ready_failure_advances_hub_generation_but_preserves_old_map() {
    let world = World::default();
    let repo = world.seed_repo("repo", "ra");
    let config = roster(&[&repo]);
    let mut state = RuntimeRefreshState::default();
    let first_bd = FakeBd::new(&world)
        .with_ready(vec![issue("ra-1", 1, "ready")])
        .with_export_content(&repo, b"{\"id\":\"ra-1\"}\n");
    let old_snapshot =
        gather_snapshot_with_state(&world, &first_bd, &config, &mut state).0.unwrap();
    let old_generation = old_snapshot.rows[0].attribution_generation.unwrap();

    let mut second_bd = FakeBd::new(&world)
        .with_search(vec![issue("ra-1", 1, "found")])
        .with_export_content(&repo, b"{\"id\":\"ra-1\"}\n");
    second_bd.ready = Err(bd_err());
    assert!(gather_snapshot_with_state(&world, &second_bd, &config, &mut state).0.is_none());
    let current_generation = state.current_hub().unwrap().generation;

    assert_ne!(current_generation, old_generation);
    assert!(state.map_for(old_generation).is_some());
    let rows = gather_search_with_state(&world, &second_bd, "found", &state).unwrap();
    assert_eq!(rows[0].attribution_generation, Some(current_generation));
}

#[test]
fn marker_publish_failure_clears_current_hub_and_keeps_old_map() {
    let world = World::default();
    let repo = world.seed_repo("repo", "ra");
    let config = roster(&[&repo]);
    let mut state = RuntimeRefreshState::default();
    let first_bd = FakeBd::new(&world)
        .with_ready(vec![issue("ra-1", 1, "ready")])
        .with_export_content(&repo, b"{\"id\":\"ra-1\"}\n");
    let old_generation = gather_snapshot_with_state(&world, &first_bd, &config, &mut state)
        .0
        .unwrap()
        .rows[0]
        .attribution_generation
        .unwrap();
    world.marker_blocked.set(true);

    let second_bd = FakeBd::new(&world).with_export_content(&repo, b"{\"id\":\"ra-1\"}\n");
    let (snapshot, warnings) =
        gather_snapshot_with_state(&world, &second_bd, &config, &mut state);

    assert!(snapshot.is_none());
    assert!(
        warnings.iter().any(|w| w.contains("generation marker")),
        "{warnings:?}"
    );
    assert!(state.current_hub().is_none());
    assert!(state.map_for(old_generation).is_some());
    let error = gather_search_with_state(&world, &second_bd, "x", &state)
        .expect_err("the hub's contents are unknown now");
    assert!(error.contains("verified refresh"), "{error}");
}

#[test]
fn sync_failure_preserves_current_hub_generation() {
    let world = World::default();
    let repo = world.seed_repo("repo", "ra");
    let config = roster(&[&repo]);
    let mut state = RuntimeRefreshState::default();
    let first_bd = FakeBd::new(&world)
        .with_ready(vec![issue("ra-1", 1, "ready")])
        .with_export_content(&repo, b"{\"id\":\"ra-1\"}\n");
    let old_generation = gather_snapshot_with_state(&world, &first_bd, &config, &mut state)
        .0
        .unwrap()
        .rows[0]
        .attribution_generation
        .unwrap();
    let failing = FakeBd::new(&world)
        .with_repo_sync_err(bd_err())
        .with_export_content(&repo, b"{\"id\":\"ra-1\"}\n");

    assert!(gather_snapshot_with_state(&world, &failing, &config, &mut state).0.is_none());
    assert_eq!(state.current_hub().unwrap().generation, old_generation);
}

#[test]
fn generation_pruning_retains_current_and_explicit_references() {
    let world = World::default();
    let repo = world.seed_repo("repo", "ra");
    let config = roster(&[&repo]);
    let mut state = RuntimeRefreshState::default();
    let bd = FakeBd::new(&world)
        .with_ready(vec![issue("ra-1", 1, "ready")])
        .with_export_content(&repo, b"{\"id\":\"ra-1\"}\n");
    let mut refresh = || {
        gather_snapshot_with_state(&world, &bd, &config, &mut state).0.unwrap().rows[0]
            .attribution_generation
            .unwrap()
    };
    let first = refresh();
    let second = refresh();
    let current = refresh();

    state.prune(&vec![first]);

    assert!(state.map_for(first).is_some());
    assert!(state.map_for(current).is_some());
    assert!(state.map_for(second).is_none());
    assert_eq!(state.last_generation(), current.value());
}

fn copy_row(repo_name: &str, id: &str) -> Row {
    Row {
        issue: issue(id, 1, "Ready one"),
        repo_id: None,
        repo_name: repo_name.to_string(),
        attribution_generation: None,
    }
}

#[test]
fn cached_row_without_generation_uses_hub_copy_fallback_without_prefix_reads() {
    let world = World::default();
    let row = copy_row("repo", "ra-1");
    let bd = FakeBd::new(&world);

    let (payload, _) = copy(&world, &bd, &row, false, None);

    assert_eq!(payload, format!("bd -C {} show ra-1", hub_dir(&world.paths()).display()));
    assert!(bd.calls().is_empty());
}

#[test]
fn cached_copy_prefixes_deduplicate_duplicate_roster_entries() {
    let world = World::default();
    let ra = world.seed_repo("ra", "ra");
    let alias = ra.join_text(".");
    let config = roster(&[&ra, &alias]);
    let bd = FakeBd::new(&world);
    let names = config.repos.iter().map(|e| world.normalize(&e.path)).collect();
    let (map, errors) = attribution_map(&bd, &config, &names);
    assert!(errors.is_empty());

    let (payload, summary) = copy(&world, &bd, &copy_row("ra", "ra-1"), false, Some(&map));

    assert_eq!(
        payload,
        format!("cd {} && bd show ra-1", ra.display()),
        "a duplicate roster entry must not force command copy through the hub"
    );
    assert!(summary.starts_with("cd ") && summary.chars().count() <= COPY_SUMMARY_MAX);
    assert_eq!(bd.calls().len(), 1, "an alias is not asked again");
}

#[test]
fn copy_worker_builds_cd_for_attributed() {
    let world = World::default();
    let ra = world.seed_repo("ra", "ra");
    let bd = FakeBd::new(&world);
    let (map, _) = attribution_map(&bd, &roster(&[&ra]), &vec![ra.clone()]);

    let (payload, summary) = copy(&world, &bd, &copy_row("ra", "ra-1"), false, Some(&map));

    assert_eq!(
        payload,
        format!("cd {} && bd show ra-1", ra.display()),
        "attributed id resolves to its repo path"
    );
    assert!(
        summary.starts_with("cd ") && summary.chars().count() <= COPY_SUMMARY_MAX,
        "summary is the truncated command form: {summary}"
    );
}

#[test]
fn copy_worker_falls_back_to_hub_for_unattributed() {
    let world = World::default();
    let ra = world.seed_repo("ra", "ra");
    let bd = FakeBd::new(&world);
    let (map, _) = attribution_map(&bd, &roster(&[&ra]), &vec![ra.clone()]);

    // An id whose prefix (`zz`) matches no roster repo → hub fallback.
    let (payload, _) = copy(&world, &bd, &copy_row("unknown", "zz-9"), false, Some(&map));
    assert_eq!(payload, format!("bd -C {} show zz-9", hub_dir(&world.paths()).display()));
}

#[test]
fn copy_worker_markdown_block() {
    let world = World::default();
    let mut bd = FakeBd::new(&world);
    bd.show = Ok(detail(
        "ra-1",
        "Renamed after snapshot",
        Some("Current description from bd show --json"),
    ));

    let (payload, _) = copy(&world, &bd, &copy_row("session-tui", "ra-1"), true, None);
    assert!(payload.contains("Renamed after snapshot"), "{payload:?}");
    assert!(payload.contains("Current description from bd show --json"), "{payload:?}");
    assert!(payload.contains("ra-1") && payload.contains("session-tui"), "{payload:?}");

    bd.show = Err(bd_err());
    let (stale, _) = copy(&world, &bd, &copy_row("session-tui", "ra-1"), true, None);
    assert!(stale.contains("Ready one"), "what is known is copied: {stale:?}");
}

#[test]
fn generations_are_never_reused() {
    let world = World::default();
    let repo = world.seed_repo("repo", "ra");
    let config = roster(&[&repo]);
    let bd = FakeBd::new(&world).with_ready(vec![issue("ra-1", 1, "ready")]);
    let mut state = RuntimeRefreshState::new();
    let mut seen: Vec<AttributionGeneration> = Vec::new();
    for round in 0..4 {
        world.marker_blocked.set(round == 1);
        gather_snapshot_with_state(&world, &bd, &config, &mut state);
        if let Some(current) = state.current_hub() {
            assert!(!seen.contains(&current.generation));
            seen.push(current.generation);
        }
    }
    assert_eq!(seen.len(), 3);
}

// ---------------------------------------------------------------------------
// The `snapshot` command.
// ---------------------------------------------------------------------------

#[test]
fn snapshot_prints_rows() {
    let world = World::default();
    let ra = world.seed_repo("ra", "ra");
    let bd = FakeBd::new(&world).with_ready(vec![issue("ra-2hc", 1, "Ready task one")]);

    let (stdout, _) = drive_snapshot(&world, &bd, &roster(&[&ra])).expect("ok");

    assert_eq!(stdout, vec!["[ra] P1 ra-2hc Ready task one"]);
}

#[test]
fn snapshot_surfaces_per_repo_warnings_without_aborting() {
    let world = World::default();
    let ra = world.seed_repo("ra", "ra");
    let rb = world.seed_repo("rb", "rb");
    let disk_full = BdError {
        command: "bd export".into(),
        stderr: "disk full".into(),
        kind: BdErrorKind::NonZeroExit { code: Some(1) },
    };
    let bd = FakeBd::new(&world)
        .with_ready(vec![issue("ra-2hc", 1, "Ready task one")])
        .with_export_err(&rb, disk_full);

    let (stdout, stderr) = drive_snapshot(&world, &bd, &roster(&[&ra, &rb])).expect("ok");

    assert!(
        stdout.iter().any(|l| l.contains("ra-2hc")),
        "healthy rows still printed: {stdout:?}"
    );
    assert!(
        stderr.iter().any(|l| l.contains("rb")),
        "the failed repo is warned about on err: {stderr:?}"
    );
}

#[test]
fn snapshot_already_refreshing_degrades() {
    let world = World::default();
    let ra = world.seed_repo("ra", "ra");
    world.lock_held.set(true);
    let bd = FakeBd::new(&world).with_ready(vec![issue("ra-2hc", 1, "Ready task one")]);

    let (stdout, stderr) = drive_snapshot(&world, &bd, &roster(&[&ra])).expect("degrades, ok");

    assert!(
        stdout.iter().any(|l| l.contains("ra-2hc")),
        "stale rows still printed: {stdout:?}"
    );
    assert!(
        stderr.iter().any(|l| l.to_lowercase().contains("refreshing")),
        "AlreadyRefreshing warned on err: {stderr:?}"
    );
}

#[test]
fn snapshot_version_gate_failure_is_fatal() {
    let world = World::default();
    let ra = world.seed_repo("ra", "ra");
    let bd = FakeBd::new(&world).with_version(Ok(version("1.0.0", 1)));

    let e = drive_snapshot(&world, &bd, &roster(&[&ra])).expect_err("gate is fatal");
    assert!(matches!(e, CliError::VersionGate(_)), "got {e:?}");
    assert_eq!(bd.calls(), vec![Call::Version], "nothing else is done");
}

#[test]
fn snapshot_sync_failure_is_fatal() {
    let world = World::default();
    let ra = world.seed_repo("ra", "ra");
    let bd = FakeBd::new(&world).with_repo_sync_err(bd_err());

    let e = drive_snapshot(&world, &bd, &roster(&[&ra])).expect_err("sync failure is fatal");
    assert!(matches!(e, CliError::Refresh(RefreshError::Sync(_))), "got {e:?}");
}

#[test]
fn snapshot_warnings_are_sanitized() {
    let world = World::default();
    // A roster path carrying terminal-control bytes: it does not exist, so the
    // hub warns with a line that echoes the raw path.
    let hostile = world.under("evil\u{1b}]52;c;x\u{07}\nforged");
    let bd = FakeBd::new(&world).with_ready(vec![issue("ra-2hc", 1, "t")]);

    let (_, stderr) = drive_snapshot(&world, &bd, &roster(&[&hostile])).expect("ok");

    assert!(!stderr.is_empty());
    for line in &stderr {
        assert_eq!(line, &sanitize(line), "no raw terminal-control bytes: {line:?}");
    }
}

#[test]
fn snapshot_failures_of_version_and_ready_are_fatal() {
    let world = World::default();
    let no_version = FakeBd::new(&world).with_version(Err(bd_err()));
    assert_eq!(
        drive_snapshot(&world, &no_version, &Config::default()),
        Err(CliError::Bd(bd_err()))
    );
    let mut no_ready = FakeBd::new(&world);
    no_ready.ready = Err(bd_err());
    assert_eq!(
        drive_snapshot(&world, &no_ready, &Config::default()),
        Err(CliError::Bd(bd_err()))
    );
    let mut no_init = FakeBd::new(&world);
    no_init.init = Err(bd_err());
    assert_eq!(
        drive_snapshot(&world, &no_init, &Config::default()),
        Err(CliError::Hub(HubError::Bd(bd_err())))
    );
}

#[test]
fn a_snapshot_checks_makes_ready_syncs_and_reads_in_that_order() {
    let world = World::default();
    let ra = world.seed_repo("ra", "ra");
    let bd = FakeBd::new(&world).with_ready(vec![issue("ra-2hc", 1, "Ready task one")]);

    drive_snapshot(&world, &bd, &roster(&[&ra])).expect("ok");

    let calls = bd.calls();
    let place = |wanted: fn(&Call) -> bool| calls.iter().position(wanted).expect("called");
    let order = [
        place(|c| matches!(c, Call::Version)),
        place(|c| matches!(c, Call::Init(..))),
        place(|c| matches!(c, Call::RepoAdd(..))),
        place(|c| matches!(c, Call::Export(..))),
        place(|c| matches!(c, Call::RepoSync(_))),
        place(|c| matches!(c, Call::Ready(_))),
    ];
    assert!(order.is_sorted(), "{calls:?}");
    assert_eq!((order[0], order[5] + 1), (0, calls.len()));
}

#[test]
fn a_remembered_warning_is_as_inert_as_a_fresh_one() {
    let world = World::default();
    let bd = FakeBd::new(&world).with_version(Ok(version("0.1\u{1b}[2J\n", 99)));
    let mut state = RuntimeRefreshState::new();
    let first = gather_snapshot_with_state(&world, &bd, &Config::default(), &mut state).1;
    let again = gather_snapshot_with_state(&world, &bd, &Config::default(), &mut state).1;

    assert_eq!(first.len(), 1);
    assert_eq!(again, first);
    assert_eq!(sanitize(&first[0]), first[0], "no raw terminal-control bytes");
    assert_eq!(bd.calls(), vec![Call::Version], "asked once");
}

#[test]
fn reconciling_warns_of_every_missing_entry_in_order() {
    let world = World::default();
    let ra = world.seed_repo("ra", "ra");
    let (gone, lost) = (world.under("gone"), world.under("lost"));
    let bd = FakeBd::new(&world);

    let status = drive_hub(&world, &bd, &roster(&[&lost, &ra, &gone, &lost])).unwrap();

    let missing = |p: &FsPath| format!("roster path does not exist: {}", p.display());
    assert_eq!(status.warnings, vec![missing(&lost), missing(&gone), missing(&lost)]);
}

#[test]
fn the_order_of_claims_changes_no_attribution() {
    let entry = |p: &str| RepoEntry { path: FsPath::new(p) };
    let pairs = [("ra", "/a"), ("ra-x", "/b"), ("rb", "/c"), ("rb", "/d")];
    let owned = |order: &[usize]| {
        order.iter().map(|i| (pairs[*i].0.to_string(), entry(pairs[*i].1))).collect::<Vec<_>>()
    };
    let one = PrefixMap::from_pairs(owned(&[0, 1, 2, 3]));
    let two = PrefixMap::from_pairs(owned(&[3, 1, 0, 2]));
    for id in ["ra-1", "ra-x-1", "rb-1", "rc-1"] {
        assert_eq!(repo_of(&one, id), repo_of(&two, id));
    }
    assert_eq!(repo_of(&one, "ra-x-1"), Some(&FsPath::new("/b")));
    assert_eq!(repo_of(&one, "rb-1"), None);
    assert_eq!(one.collisions().len(), 1);
    assert_eq!(one.collisions()[0].repos, vec![FsPath::new("/c"), FsPath::new("/d")]);
    assert_eq!(two.collisions()[0].repos, vec![FsPath::new("/d"), FsPath::new("/c")]);
}
