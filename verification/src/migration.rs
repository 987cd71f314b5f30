//! Taking over the user's files from the application's former name.
//!
//! Two files are taken over: the roster and the preferences. A file under the
//! current name always wins, nothing invalid is taken over, and the files under
//! the former name stay as they are. The caller performs the file operations;
//! this module decides each next one and words what went wrong.
use vstd::prelude::*;
use vstd::string::*;
use vstd::utf8::*;
use crate::config::{lemma_own_names, paths_below, resolved_roster_path, Paths, PathsModel};
use crate::disk::{at, keeps, Disk, Entry};
use crate::hub::{hub_path, lemma_file_outside, outside};
use crate::io::{io_result, IoFailure, IoFailureModel, IoKind, Probe, ProbeModel};
use crate::path::{
    append_bytes, components, copy_bytes, file_name_bytes, joined,
    law_an_absolute_path_replaces_its_base, law_join_adds_a_component, lemma_same_joined_name, lossy_utf8,
    parent_path,
    paths_view, plain_name, rooted, FsPath, DOT, SLASH, TILDE,
};
use crate::text::{decimal, decimal_text, lemma_same_numbers};

verus! {

/// What a problem of the migration is about.
#[derive(Debug, Clone, Copy, PartialEq, Eq, Structural)]
pub enum MigrationArtifact {
    /// The roster.
    Config,
    /// The preferences.
    UiState,
    /// What both need: the data directory and the lock.
    Infrastructure,
}

/// A problem of the migration.
#[derive(Debug, Clone, PartialEq, Eq)]
pub struct MigrationProblem {
    pub artifact: MigrationArtifact,
    pub message: String,
}

/// What a [`MigrationProblem`] holds.
pub struct ProblemModel {
    pub artifact: MigrationArtifact,
    pub message: Seq<char>,
}

impl View for MigrationProblem {
    type V = ProblemModel;

    open spec fn view(&self) -> ProblemModel {
        ProblemModel { artifact: self.artifact, message: self.message@ }
    }
}

/// What a list of problems holds.
pub open spec fn problems_view(v: Seq<MigrationProblem>) -> Seq<ProblemModel> {
    v.map_values(|p: MigrationProblem| p@)
}

/// What a migration came to.
#[derive(Debug, Clone, PartialEq, Eq)]
pub struct MigrationReport {
    migrated: Vec<FsPath>,
    problems: Vec<MigrationProblem>,
}

/// What a [`MigrationReport`] holds.
pub struct ReportModel {
    pub migrated: Seq<Seq<u8>>,
    pub problems: Seq<ProblemModel>,
}

impl View for MigrationReport {
    type V = ReportModel;

    closed spec fn view(&self) -> ReportModel {
        ReportModel {
            migrated: paths_view(self.migrated@),
            problems: problems_view(self.problems@),
        }
    }
}

/// The first problem that keeps a command from running: anything but one with
/// the preferences.
pub open spec fn first_fatal(problems: Seq<ProblemModel>) -> Option<Seq<char>>
    decreases problems.len(),
{
    if problems.len() == 0 {
        None
    } else if problems[0].artifact != MigrationArtifact::UiState {
        Some(problems[0].message)
    } else {
        first_fatal(problems.drop_first())
    }
}

/// The messages of the problems that only deserve notice.
pub open spec fn mild_messages(problems: Seq<ProblemModel>) -> Seq<Seq<char>> {
    problems.filter(|p: ProblemModel| p.artifact == MigrationArtifact::UiState).map_values(
        |p: ProblemModel| p.message,
    )
}

impl Default for MigrationReport {
    fn default() -> (res: MigrationReport)
        ensures
            res@ == (ReportModel { migrated: seq![], problems: seq![] }),
    {
        let res = MigrationReport { migrated: Vec::new(), problems: Vec::new() };
        assert(res@.migrated =~= seq![]);
        assert(res@.problems =~= seq![]);
        res
    }
}

impl MigrationReport {
    /// The first problem that keeps a command from running.
    pub fn fatal_problem(&self) -> (res: Option<&str>)
        ensures
            (match res {
                Some(m) => Some(m@),
                None => None,
            }) == first_fatal(self@.problems),
    {
        let ghost all = self@.problems;
        let mut i: usize = 0;
        assert(all.skip(0) =~= all);
        while i < self.problems.len()
            invariant
                i <= self.problems@.len(),
                all == problems_view(self.problems@),
                first_fatal(all) == first_fatal(all.skip(i as int)),
            decreases self.problems@.len() - i,
        {
            assert(all.skip(i as int)[0] == self.problems@[i as int]@);
            assert(all.skip(i as int).drop_first() =~= all.skip(i + 1));
            if self.problems[i].artifact != MigrationArtifact::UiState {
                return Some(self.problems[i].message.as_str());
            }
            i += 1;
        }
        None
    }

    /// The messages of the problems that only deserve notice.
    pub fn warnings(&self) -> (res: Vec<&str>)
        ensures
            res@.map_values(|m: &str| m@) == mild_messages(self@.problems),
    {
        let ghost all = self@.problems;
        let ghost mild = |p: ProblemModel| p.artifact == MigrationArtifact::UiState;
        let mut out: Vec<&str> = Vec::new();
        let mut i: usize = 0;
        assert(all.take(0) =~= Seq::<ProblemModel>::empty());
        assert(out@.map_values(|m: &str| m@) =~= mild_messages(all.take(0))) by {
            all.take(0).lemma_filter_len(mild);
        }
        while i < self.problems.len()
            invariant
                i <= self.problems@.len(),
                all == problems_view(self.problems@),
                mild == (|p: ProblemModel| p.artifact == MigrationArtifact::UiState),
                out@.map_values(|m: &str| m@) == mild_messages(all.take(i as int)),
            decreases self.problems@.len() - i,
        {
            let ghost before = out@;
            let ghost here = self.problems@[i as int]@;
            proof {
                assert(all[i as int] == here);
                assert(all.take(i + 1) =~= all.take(i as int).push(here));
                all.take(i as int).lemma_filter_push(here, mild);
            }
            if self.problems[i].artifact == MigrationArtifact::UiState {
                out.push(self.problems[i].message.as_str());
                assert(out@.map_values(|m: &str| m@) =~= before.map_values(|m: &str| m@).push(
                    here.message,
                ));
                assert(mild_messages(all.take(i + 1)) =~= mild_messages(all.take(i as int)).push(
                    here.message,
                ));
            }
            i += 1;
        }
        assert(all.take(all.len() as int) =~= all);
        out
    }

    /// The files that were taken over.
    pub fn migrated(&self) -> (res: &Vec<FsPath>)
        ensures
            paths_view(res@) == self@.migrated,
    {
        &self.migrated
    }

    /// The messages of all problems.
    pub fn problems(&self) -> (res: Vec<&str>)
        ensures
            res@.map_values(|m: &str| m@) == self@.problems.map_values(|p: ProblemModel| p.message),
    {
        let mut out: Vec<&str> = Vec::new();
        let mut i: usize = 0;
        while i < self.problems.len()
            invariant
                i <= self.problems@.len(),
                out@.len() == i,
                forall|k: int|
                    0 <= k < i ==> (#[trigger] out@[k])@ == self.problems@[k].message@,
            decreases self.problems@.len() - i,
        {
            out.push(self.problems[i].message.as_str());
            i += 1;
        }
        assert(out@.map_values(|m: &str| m@) =~= self@.problems.map_values(
            |p: ProblemModel| p.message,
        ));
        out
    }

    /// Adds what one file came to.
    pub fn record(&mut self, result: FileResult)
        ensures
            final(self)@ == recorded(old(self)@, result@),
    {
        match result {
            FileResult::Skipped => {},
            FileResult::Problem(p) => {
                let ghost before = self@;
                let ghost shown = p@;
                self.problems.push(p);
                assert(self@.problems =~= before.problems.push(shown));
                assert(self@.migrated =~= before.migrated);
            },
            FileResult::Migrated(path) => {
                let ghost before = self@;
                let ghost shown = path@;
                self.migrated.push(path);
                assert(self@.migrated =~= before.migrated.push(shown));
                assert(self@.problems =~= before.problems);
            },
        }
    }
}

// ---------------------------------------------------------------------------
// Whether there is anything to do
// ---------------------------------------------------------------------------

/// Whether a file may have to be taken over: not where the current one is
/// there, and otherwise unless the former one is missing. What cannot be
/// inspected is worth a closer look.
pub open spec fn may_migrate(canonical: ProbeModel, legacy: ProbeModel) -> bool {
    match canonical {
        ProbeModel::Present => false,
        ProbeModel::Missing => !(legacy is Missing),
        ProbeModel::Failed(_) => true,
    }
}

/// Whether a file may have to be taken over.
pub fn legacy_artifact_may_need_migration(canonical: &Probe, legacy: &Probe) -> (res: bool)
    ensures
        res == may_migrate(canonical@, legacy@),
{
    match canonical {
        Probe::Present => false,
        Probe::Missing => match legacy {
            Probe::Missing => false,
            _ => true,
        },
        Probe::Failed(_) => true,
    }
}

/// What to do next in a migration.
#[derive(Debug, PartialEq, Eq)]
pub enum MigrationStep {
    /// Create the data directory.
    CreateRoot { dir: FsPath },
    /// Open the lock file.
    OpenLock { file: FsPath },
    /// Lock it, waiting for other launches.
    Lock,
    /// Take over the roster, then the preferences.
    MigrateFiles,
    /// Nothing is left to do.
    Done { report: MigrationReport },
}

/// What a [`MigrationStep`] holds.
pub enum MigrationStepModel {
    CreateRoot { dir: Seq<u8> },
    OpenLock { file: Seq<u8> },
    Lock,
    MigrateFiles,
    Done { report: ReportModel },
}

impl View for MigrationStep {
    type V = MigrationStepModel;

    open spec fn view(&self) -> MigrationStepModel {
        match self {
            MigrationStep::CreateRoot { dir } => MigrationStepModel::CreateRoot { dir: dir@ },
            MigrationStep::OpenLock { file } => MigrationStepModel::OpenLock { file: file@ },
            MigrationStep::Lock => MigrationStepModel::Lock,
            MigrationStep::MigrateFiles => MigrationStepModel::MigrateFiles,
            MigrationStep::Done { report } => MigrationStepModel::Done { report: report@ },
        }
    }
}

/// A migration that ends with one problem of the infrastructure.
pub open spec fn infrastructure_failure(message: Seq<char>) -> MigrationStepModel {
    MigrationStepModel::Done {
        report: ReportModel {
            migrated: seq![],
            problems: seq![
                ProblemModel { artifact: MigrationArtifact::Infrastructure, message },
            ],
        },
    }
}

fn fail_infrastructure(message: String) -> (res: MigrationStep)
    ensures
        res@ == infrastructure_failure(message@),
{
    let mut report = MigrationReport::default();
    report.record(
        FileResult::Problem(
            MigrationProblem { artifact: MigrationArtifact::Infrastructure, message },
        ),
    );
    assert(report@.problems =~= seq![
        ProblemModel { artifact: MigrationArtifact::Infrastructure, message: message@ },
    ]);
    MigrationStep::Done { report }
}

/// What came of a step of a migration.
pub enum MigrationEvent {
    RootCreated(Result<(), IoFailureModel>),
    LockOpened(Result<(), IoFailureModel>),
    Locked(Result<(), IoFailureModel>),
    FilesMigrated { config: FileResultModel, ui_state: FileResultModel },
}

/// The first step of a migration.
pub open spec fn migration_start(p: PathsModel, config: bool, ui_state: bool)
    -> MigrationStepModel {
    if config || ui_state {
        MigrationStepModel::CreateRoot { dir: parent_path(p.migration_lock_file)->Some_0 }
    } else {
        MigrationStepModel::Done { report: no_report() }
    }
}

/// The report of a migration that did nothing.
pub open spec fn no_report() -> ReportModel {
    ReportModel { migrated: seq![], problems: seq![] }
}

/// The step after an outcome. An outcome of something else than what was
/// asked for changes nothing.
pub open spec fn migration_next(p: PathsModel, step: MigrationStepModel, event: MigrationEvent)
    -> MigrationStepModel {
    match (step, event) {
        (MigrationStepModel::CreateRoot { dir }, MigrationEvent::RootCreated(result)) => {
            match result {
                Ok(_) => MigrationStepModel::OpenLock { file: p.migration_lock_file },
                Err(e) => infrastructure_failure(
                    path_failure("legacy migration cannot create data root "@, dir, e.message),
                ),
            }
        },
        (MigrationStepModel::OpenLock { .. }, MigrationEvent::LockOpened(result)) => match result {
            Ok(_) => MigrationStepModel::Lock,
            Err(e) => infrastructure_failure(
                path_failure(
                    "legacy migration cannot open lock "@,
                    p.migration_lock_file,
                    e.message,
                ),
            ),
        },
        (MigrationStepModel::Lock, MigrationEvent::Locked(result)) => match result {
            Ok(_) => MigrationStepModel::MigrateFiles,
            Err(e) => infrastructure_failure(
                path_failure("legacy migration cannot lock "@, p.migration_lock_file, e.message),
            ),
        },
        (
            MigrationStepModel::MigrateFiles,
            MigrationEvent::FilesMigrated { config, ui_state },
        ) => MigrationStepModel::Done {
            report: recorded(recorded(no_report(), config), ui_state),
        },
        _ => step,
    }
}

/// Starts a migration. Where neither file may have to be taken over, nothing
/// is written at all.
pub fn migrate_legacy_state(paths: &Paths, config: bool, ui_state: bool) -> (res: MigrationStep)
    ensures
        config || ui_state ==> (res@ matches MigrationStepModel::CreateRoot { dir } && parent_path(
            paths@.migration_lock_file,
        ) == Some(dir)),
        !config && !ui_state ==> res@ == (MigrationStepModel::Done {
            report: ReportModel { migrated: seq![], problems: seq![] },
        }),
        res@ == migration_start(paths@, config, ui_state),
{
    if config || ui_state {
        MigrationStep::CreateRoot { dir: paths.migration_lock_dir() }
    } else {
        MigrationStep::Done { report: MigrationReport::default() }
    }
}

/// A message with a path and a failure.
pub open spec fn path_failure(head: Seq<char>, path: Seq<u8>, error: Seq<char>) -> Seq<char> {
    head + lossy_utf8(path) + ": "@ + error
}

fn path_message(head: &str, path: &FsPath, error: &str) -> (res: String)
    ensures
        res@ == path_failure(head@, path@, error@),
{
    let mut out = String::from_str(head);
    out.append(path.display().as_str());
    out.append(": ");
    out.append(error);
    out
}

/// After creating the data directory.
pub fn root_created(paths: &Paths, dir: &FsPath, result: Result<(), IoFailure>) -> (res:
    MigrationStep)
    ensures
        res@ == migration_next(
            paths@,
            MigrationStepModel::CreateRoot { dir: dir@ },
            MigrationEvent::RootCreated(io_result(result)),
        ),
{
    match result {
        Ok(()) => MigrationStep::OpenLock { file: paths.migration_lock_file().clone() },
        Err(e) => fail_infrastructure(
            path_message(
                "legacy migration cannot create data root ",
                dir,
                e.message.as_str(),
            ),
        ),
    }
}

/// After opening the lock file.
pub fn lock_opened(paths: &Paths, result: Result<(), IoFailure>) -> (res: MigrationStep)
    ensures
        res@ == migration_next(
            paths@,
            MigrationStepModel::OpenLock { file: paths@.migration_lock_file },
            MigrationEvent::LockOpened(io_result(result)),
        ),
{
    match result {
        Ok(()) => MigrationStep::Lock,
        Err(e) => fail_infrastructure(
            path_message(
                "legacy migration cannot open lock ",
                paths.migration_lock_file(),
                e.message.as_str(),
            ),
        ),
    }
}

/// After locking it.
pub fn lock_taken(paths: &Paths, result: Result<(), IoFailure>) -> (res: MigrationStep)
    ensures
        res@ == migration_next(
            paths@,
            MigrationStepModel::Lock,
            MigrationEvent::Locked(io_result(result)),
        ),
{
    match result {
        Ok(()) => MigrationStep::MigrateFiles,
        Err(e) => fail_infrastructure(
            path_message(
                "legacy migration cannot lock ",
                paths.migration_lock_file(),
                e.message.as_str(),
            ),
        ),
    }
}

/// After taking over the roster, then the preferences.
pub fn files_migrated(paths: &Paths, config: FileResult, ui_state: FileResult) -> (res:
    MigrationStep)
    ensures
        res@ == migration_next(
            paths@,
            MigrationStepModel::MigrateFiles,
            MigrationEvent::FilesMigrated { config: config@, ui_state: ui_state@ },
        ),
{
    let mut report = MigrationReport::default();
    report.record(config);
    report.record(ui_state);
    MigrationStep::Done { report }
}

// ---------------------------------------------------------------------------
// One file
// ---------------------------------------------------------------------------

/// A file to take over.
#[derive(Debug, PartialEq, Eq)]
pub struct FileJob {
    pub legacy: FsPath,
    pub canonical: FsPath,
    pub artifact: MigrationArtifact,
}

/// What a [`FileJob`] holds.
pub struct FileJobModel {
    pub legacy: Seq<u8>,
    pub canonical: Seq<u8>,
    pub artifact: MigrationArtifact,
}

impl View for FileJob {
    type V = FileJobModel;

    open spec fn view(&self) -> FileJobModel {
        FileJobModel {
            legacy: self.legacy@,
            canonical: self.canonical@,
            artifact: self.artifact,
        }
    }
}

/// The roster, as a file to take over.
pub open spec fn config_job(p: PathsModel) -> FileJobModel {
    FileJobModel {
        legacy: p.legacy_config_file,
        canonical: p.config_file,
        artifact: MigrationArtifact::Config,
    }
}

/// The preferences, as a file to take over.
pub open spec fn ui_state_job(p: PathsModel) -> FileJobModel {
    FileJobModel {
        legacy: p.legacy_ui_state_file,
        canonical: p.ui_state_file,
        artifact: MigrationArtifact::UiState,
    }
}

/// The two files that can be taken over, in order.
pub fn file_jobs(paths: &Paths) -> (res: (FileJob, FileJob))
    ensures
        res.0@ == config_job(paths@),
        res.1@ == ui_state_job(paths@),
{
    (
        FileJob {
            legacy: paths.legacy_config_file().clone(),
            canonical: paths.config_file().clone(),
            artifact: MigrationArtifact::Config,
        },
        FileJob {
            legacy: paths.legacy_ui_state_file().clone(),
            canonical: paths.ui_state_file().clone(),
            artifact: MigrationArtifact::UiState,
        },
    )
}

/// What taking over a file came to.
#[derive(Debug, PartialEq, Eq)]
pub enum FileResult {
    /// Nothing had to be done, or another process did it.
    Skipped,
    Problem(MigrationProblem),
    Migrated(FsPath),
}

/// What a [`FileResult`] holds.
pub enum FileResultModel {
    Skipped,
    Problem(ProblemModel),
    Migrated(Seq<u8>),
}

impl View for FileResult {
    type V = FileResultModel;

    open spec fn view(&self) -> FileResultModel {
        match self {
            FileResult::Skipped => FileResultModel::Skipped,
            FileResult::Problem(p) => FileResultModel::Problem(p@),
            FileResult::Migrated(path) => FileResultModel::Migrated(path@),
        }
    }
}

/// A report with what one file came to.
pub open spec fn recorded(report: ReportModel, result: FileResultModel) -> ReportModel {
    match result {
        FileResultModel::Skipped => report,
        FileResultModel::Problem(p) => ReportModel { problems: report.problems.push(p), ..report },
        FileResultModel::Migrated(path) => ReportModel {
            migrated: report.migrated.push(path),
            ..report
        },
    }
}

/// What to do next for a file.
#[derive(Debug, PartialEq, Eq)]
pub enum FileStep {
    /// Find out whether the current file is there.
    InspectCanonical,
    /// Find out whether the former file is there.
    InspectLegacy,
    /// Open the former file.
    Open,
    /// Read its permissions.
    ReadMetadata,
    /// Read its bytes.
    Read,
    /// Check these bytes, and adapt them to their new place.
    Validate { bytes: Vec<u8> },
    /// Put these bytes in place, unless the current file is there by now.
    Publish { bytes: Vec<u8> },
    /// Nothing is left to do.
    Finished { result: FileResult },
}

/// What a [`FileStep`] holds.
pub enum FileStepModel {
    InspectCanonical,
    InspectLegacy,
    Open,
    ReadMetadata,
    Read,
    Validate { bytes: Seq<u8> },
    Publish { bytes: Seq<u8> },
    Finished { result: FileResultModel },
}

impl View for FileStep {
    type V = FileStepModel;

    open spec fn view(&self) -> FileStepModel {
        match self {
            FileStep::InspectCanonical => FileStepModel::InspectCanonical,
            FileStep::InspectLegacy => FileStepModel::InspectLegacy,
            FileStep::Open => FileStepModel::Open,
            FileStep::ReadMetadata => FileStepModel::ReadMetadata,
            FileStep::Read => FileStepModel::Read,
            FileStep::Validate { bytes } => FileStepModel::Validate { bytes: bytes@ },
            FileStep::Publish { bytes } => FileStepModel::Publish { bytes: bytes@ },
            FileStep::Finished { result } => FileStepModel::Finished { result: result@ },
        }
    }
}

/// How publishing ended.
#[derive(Debug, Clone, Copy, PartialEq, Eq, Structural)]
pub enum PublishOutcome {
    /// The file is in place.
    Published,
    /// Another process put a file in place first.
    CanonicalWon,
}

/// The outcome of what a step asks for.
pub enum FileEvent {
    Canonical(ProbeModel),
    Legacy(ProbeModel),
    Opened(Result<(), IoFailureModel>),
    Metadata(Result<(), IoFailureModel>),
    Bytes(Result<Seq<u8>, IoFailureModel>),
    Validated(Result<Seq<u8>, Seq<char>>),
    Published(Result<PublishOutcome, IoFailureModel>),
}

/// A step that ends with a problem.
pub open spec fn file_problem(job: FileJobModel, message: Seq<char>) -> FileStepModel {
    FileStepModel::Finished {
        result: FileResultModel::Problem(ProblemModel { artifact: job.artifact, message }),
    }
}

/// A step that ends without anything done.
pub open spec fn file_skipped() -> FileStepModel {
    FileStepModel::Finished { result: FileResultModel::Skipped }
}

/// The step after an outcome. An outcome of something else than what was
/// asked for changes nothing.
pub open spec fn file_next(job: FileJobModel, step: FileStepModel, event: FileEvent)
    -> FileStepModel {
    match (step, event) {
        (FileStepModel::InspectCanonical, FileEvent::Canonical(probe)) => match probe {
            ProbeModel::Present => file_skipped(),
            ProbeModel::Missing => FileStepModel::InspectLegacy,
            ProbeModel::Failed(e) => file_problem(
                job,
                path_failure(
                    "legacy migration cannot inspect canonical state "@,
                    job.canonical,
                    e.message,
                ),
            ),
        },
        (FileStepModel::InspectLegacy, FileEvent::Legacy(probe)) => match probe {
            ProbeModel::Present => FileStepModel::Open,
            ProbeModel::Missing => file_skipped(),
            ProbeModel::Failed(e) => file_problem(
                job,
                path_failure(
                    "legacy migration cannot inspect legacy state "@,
                    job.legacy,
                    e.message,
                ),
            ),
        },
        (FileStepModel::Open, FileEvent::Opened(result)) => match result {
            Ok(()) => FileStepModel::ReadMetadata,
            Err(e) => file_problem(
                job,
                path_failure("reading legacy state "@, job.legacy, e.message),
            ),
        },
        (FileStepModel::ReadMetadata, FileEvent::Metadata(result)) => match result {
            Ok(()) => FileStepModel::Read,
            Err(e) => file_problem(
                job,
                path_failure("reading legacy metadata "@, job.legacy, e.message),
            ),
        },
        (FileStepModel::Read, FileEvent::Bytes(result)) => match result {
            Ok(bytes) => FileStepModel::Validate { bytes },
            Err(e) => file_problem(
                job,
                path_failure("reading legacy state "@, job.legacy, e.message),
            ),
        },
        (FileStepModel::Validate { .. }, FileEvent::Validated(result)) => match result {
            Ok(bytes) => FileStepModel::Publish { bytes },
            Err(message) => file_problem(
                job,
                "legacy state "@ + lossy_utf8(job.legacy)
                    + " is invalid and was not migrated: "@ + message,
            ),
        },
        (FileStepModel::Publish { .. }, FileEvent::Published(result)) => match result {
            Ok(PublishOutcome::Published) => FileStepModel::Finished {
                result: FileResultModel::Migrated(job.canonical),
            },
            Ok(PublishOutcome::CanonicalWon) => file_skipped(),
            Err(e) => file_problem(
                job,
                "migrating legacy state "@ + lossy_utf8(job.legacy) + " to "@ + lossy_utf8(
                    job.canonical,
                ) + ": "@ + e.message,
            ),
        },
        _ => step,
    }
}

fn finish_problem(job: &FileJob, message: String) -> (res: FileStep)
    ensures
        res@ == file_problem(job@, message@),
{
    FileStep::Finished {
        result: FileResult::Problem(MigrationProblem { artifact: job.artifact, message }),
    }
}

/// The first step for a file.
pub fn migrate_file() -> (res: FileStep)
    ensures
        res@ == FileStepModel::InspectCanonical,
{
    FileStep::InspectCanonical
}

/// After inspecting the current file.
pub fn canonical_inspected(job: &FileJob, probe: Probe) -> (res: FileStep)
    ensures
        res@ == file_next(job@, FileStepModel::InspectCanonical, FileEvent::Canonical(probe@)),
{
    match probe {
        Probe::Present => FileStep::Finished { result: FileResult::Skipped },
        Probe::Missing => FileStep::InspectLegacy,
        Probe::Failed(e) => finish_problem(
            job,
            path_message(
                "legacy migration cannot inspect canonical state ",
                &job.canonical,
                e.message.as_str(),
            ),
        ),
    }
}

/// After inspecting the former file.
pub fn legacy_inspected(job: &FileJob, probe: Probe) -> (res: FileStep)
    ensures
        res@ == file_next(job@, FileStepModel::InspectLegacy, FileEvent::Legacy(probe@)),
{
    match probe {
        Probe::Present => FileStep::Open,
        Probe::Missing => FileStep::Finished { result: FileResult::Skipped },
        Probe::Failed(e) => finish_problem(
            job,
            path_message(
                "legacy migration cannot inspect legacy state ",
                &job.legacy,
                e.message.as_str(),
            ),
        ),
    }
}

/// After opening the former file.
pub fn legacy_opened(job: &FileJob, result: Result<(), IoFailure>) -> (res: FileStep)
    ensures
        res@ == file_next(job@, FileStepModel::Open, FileEvent::Opened(io_result(result))),
{
    match result {
        Ok(()) => FileStep::ReadMetadata,
        Err(e) => finish_problem(
            job,
            path_message("reading legacy state ", &job.legacy, e.message.as_str()),
        ),
    }
}

/// After reading the permissions of the former file.
pub fn metadata_read(job: &FileJob, result: Result<(), IoFailure>) -> (res: FileStep)
    ensures
        res@ == file_next(job@, FileStepModel::ReadMetadata, FileEvent::Metadata(io_result(result))),
{
    match result {
        Ok(()) => FileStep::Read,
        Err(e) => finish_problem(
            job,
            path_message("reading legacy metadata ", &job.legacy, e.message.as_str()),
        ),
    }
}

/// What reading bytes came to.
pub open spec fn bytes_result(r: Result<Vec<u8>, IoFailure>) -> Result<Seq<u8>, IoFailureModel> {
    match r {
        Ok(b) => Ok(b@),
        Err(e) => Err(e@),
    }
}

/// After reading the bytes of the former file.
pub fn bytes_read(job: &FileJob, result: Result<Vec<u8>, IoFailure>) -> (res: FileStep)
    ensures
        res@ == file_next(job@, FileStepModel::Read, FileEvent::Bytes(bytes_result(result))),
{
    match result {
        Ok(bytes) => FileStep::Validate { bytes },
        Err(e) => finish_problem(
            job,
            path_message("reading legacy state ", &job.legacy, e.message.as_str()),
        ),
    }
}

/// What checking bytes came to.
pub open spec fn valid_result(r: Result<Vec<u8>, String>) -> Result<Seq<u8>, Seq<char>> {
    match r {
        Ok(b) => Ok(b@),
        Err(m) => Err(m@),
    }
}

/// After checking the bytes of the former file.
pub fn bytes_validated(job: &FileJob, result: Result<Vec<u8>, String>) -> (res: FileStep)
    ensures
        forall|bytes: Seq<u8>|
            res@ == #[trigger] file_next(
                job@,
                FileStepModel::Validate { bytes },
                FileEvent::Validated(valid_result(result)),
            ),
{
    match result {
        Ok(bytes) => FileStep::Publish { bytes },
        Err(message) => {
            let mut out = String::from_str("legacy state ");
            out.append(job.legacy.display().as_str());
            out.append(" is invalid and was not migrated: ");
            out.append(message.as_str());
            finish_problem(job, out)
        },
    }
}

/// What publishing came to.
pub open spec fn publish_result(r: Result<PublishOutcome, IoFailure>) -> Result<
    PublishOutcome,
    IoFailureModel,
> {
    match r {
        Ok(o) => Ok(o),
        Err(e) => Err(e@),
    }
}

/// After putting the bytes in place.
pub fn bytes_published(job: &FileJob, result: Result<PublishOutcome, IoFailure>) -> (res: FileStep)
    ensures
        forall|bytes: Seq<u8>|
            res@ == #[trigger] file_next(
                job@,
                FileStepModel::Publish { bytes },
                FileEvent::Published(publish_result(result)),
            ),
{
    match result {
        Ok(PublishOutcome::Published) => FileStep::Finished {
            result: FileResult::Migrated(job.canonical.clone()),
        },
        Ok(PublishOutcome::CanonicalWon) => FileStep::Finished { result: FileResult::Skipped },
        Err(e) => {
            let mut out = String::from_str("migrating legacy state ");
            out.append(job.legacy.display().as_str());
            out.append(" to ");
            out.append(job.canonical.display().as_str());
            out.append(": ");
            out.append(e.message.as_str());
            finish_problem(job, out)
        },
    }
}

// ---------------------------------------------------------------------------
// Putting bytes in place without replacing a file
// ---------------------------------------------------------------------------

/// The directory and the name of a file that is to be put in place.
pub fn publish_place(destination: &FsPath) -> (res: Result<(FsPath, String), IoFailure>)
    ensures
        match (parent_path(destination@), file_name_bytes(destination@)) {
            (Some(parent), name) => if parent.len() == 0 {
                res matches Err(e) && e.message@ == "destination has no parent"@ && e.kind
                    == IoKind::Other
            } else {
                match name {
                    Some(n) => res matches Ok((p, text)) && p@ == parent && text@ == lossy_utf8(n),
                    None => res matches Err(e) && e.message@ == "destination has no name"@
                        && e.kind == IoKind::Other,
                }
            },
            (None, _) => res matches Err(e) && e.message@ == "destination has no parent"@ && e.kind
                == IoKind::Other,
        },
{
    match destination.parent() {
        Some(parent) => {
            if parent.is_empty() {
                return Err(
                    IoFailure {
                        kind: IoKind::Other,
                        message: String::from_str("destination has no parent"),
                    },
                );
            }
            match destination.file_name() {
                Some(name) => Ok((parent, name.display())),
                None => Err(
                    IoFailure {
                        kind: IoKind::Other,
                        message: String::from_str("destination has no name"),
                    },
                ),
            }
        },
        None => Err(
            IoFailure {
                kind: IoKind::Other,
                message: String::from_str("destination has no parent"),
            },
        ),
    }
}

/// The sibling through which a file is put in place.
pub open spec fn temp_in(parent: Seq<u8>, name: Seq<char>, process: nat, count: nat) -> Seq<u8> {
    joined(
        parent,
        encode_utf8(
            "."@ + name + ".hank-migrate."@ + decimal(process) + "."@ + decimal(count) + ".tmp"@,
        ),
    )
}

/// The sibling through which a file is put in place.
pub fn migration_temp(parent: &FsPath, file_name: &str, process: u32, count: u64) -> (res: FsPath)
    ensures
        res@ == temp_in(parent@, file_name@, process as nat, count as nat),
{
    let mut name = String::from_str(".");
    name.append(file_name);
    name.append(".hank-migrate.");
    name.append(decimal_text(process as u64).as_str());
    name.append(".");
    name.append(decimal_text(count).as_str());
    name.append(".tmp");
    parent.join_text(name.as_str())
}

/// Whether to try the next sibling: only where this one exists already.
pub fn try_next_temp(error: &IoFailure) -> (res: bool)
    ensures
        res == (error.kind == IoKind::AlreadyExists),
{
    error.kind == IoKind::AlreadyExists
}

/// Reads the outcome of linking the sibling to the destination: a file that is
/// there already wins.
pub fn linked(result: Result<(), IoFailure>) -> (res: Result<PublishOutcome, IoFailure>)
    ensures
        match result {
            Ok(()) => res == Ok::<PublishOutcome, IoFailure>(PublishOutcome::Published),
            Err(e) => if e.kind == IoKind::AlreadyExists {
                res == Ok::<PublishOutcome, IoFailure>(PublishOutcome::CanonicalWon)
            } else {
                res == Err::<PublishOutcome, IoFailure>(e)
            },
        },
{
    match result {
        Ok(()) => Ok(PublishOutcome::Published),
        Err(e) => if e.kind == IoKind::AlreadyExists {
            Ok(PublishOutcome::CanonicalWon)
        } else {
            Err(e)
        },
    }
}

/// What publishing came to, given what removing the sibling came to: a failure
/// to publish counts first, and a sibling that is gone already is no failure.
pub fn settle_publish(
    result: Result<PublishOutcome, IoFailure>,
    cleanup: Result<(), IoFailure>,
) -> (res: Result<PublishOutcome, IoFailure>)
    ensures
        match (result, cleanup) {
            (Err(e), _) => res == Err::<PublishOutcome, IoFailure>(e),
            (Ok(outcome), Err(e)) => if e.kind == IoKind::NotFound {
                res == Ok::<PublishOutcome, IoFailure>(outcome)
            } else {
                res == Err::<PublishOutcome, IoFailure>(e)
            },
            (Ok(outcome), Ok(())) => res == Ok::<PublishOutcome, IoFailure>(outcome),
        },
{
    match (result, cleanup) {
        (Err(e), _) => Err(e),
        (Ok(outcome), Err(e)) => if e.kind == IoKind::NotFound {
            Ok(outcome)
        } else {
            Err(e)
        },
        (Ok(outcome), Ok(())) => Ok(outcome),
    }
}

// ---------------------------------------------------------------------------
// The paths of the roster
// ---------------------------------------------------------------------------

/// A repository's path in a roster file, and the bytes of the file that it
/// stands in, with its quotes.
#[derive(Debug, PartialEq, Eq)]
pub struct SpannedPath {
    pub path: String,
    pub start: usize,
    pub end: usize,
}

/// What a [`SpannedPath`] holds.
pub struct SpannedModel {
    pub path: Seq<char>,
    pub start: int,
    pub end: int,
}

impl View for SpannedPath {
    type V = SpannedModel;

    open spec fn view(&self) -> SpannedModel {
        SpannedModel { path: self.path@, start: self.start as int, end: self.end as int }
    }
}

/// What a list of paths in a roster file holds.
pub open spec fn spans_view(v: Seq<SpannedPath>) -> Seq<SpannedModel> {
    v.map_values(|s: SpannedPath| s@)
}

/// Text that takes the place of some bytes of a file.
pub struct Replacement {
    pub start: usize,
    pub end: usize,
    pub text: String,
}

/// What a [`Replacement`] holds.
pub struct ReplacementModel {
    pub start: int,
    pub end: int,
    pub text: Seq<char>,
}

impl View for Replacement {
    type V = ReplacementModel;

    open spec fn view(&self) -> ReplacementModel {
        ReplacementModel { start: self.start as int, end: self.end as int, text: self.text@ }
    }
}

/// What a list of replacements holds.
pub open spec fn replacements_view(v: Seq<Replacement>) -> Seq<ReplacementModel> {
    v.map_values(|r: Replacement| r@)
}

/// How the `toml` crate writes a text as a string value.
pub uninterp spec fn toml_string_value(text: Seq<char>) -> Seq<char>;

/// `toml::Value::String` written by `Display` is a function of the text.
#[verifier::external_body]
fn toml_string(text: &str) -> (res: String)
    ensures
        res@ == toml_string_value(text@),
{
    toml::Value::String(text.to_string()).to_string()
}

/// Whether a path of the roster depends on the place of the roster file: it is
/// neither absolute nor below the home directory.
pub open spec fn depends_on_place(path: Seq<u8>) -> bool {
    !rooted(path) && !(components(path).len() > 0 && components(path)[0] == seq![TILDE])
}

/// The replacements that keep the meaning of a roster's paths when its file
/// moves away from `dir`; none where a new path is no text.
pub open spec fn rebased(dir: Seq<u8>, spans: Seq<SpannedModel>) -> Option<Seq<ReplacementModel>>
    decreases spans.len(),
{
    if spans.len() == 0 {
        Some(seq![])
    } else {
        let last = spans.last();
        let path = encode_utf8(last.path);
        let moved = joined(dir, path);
        match rebased(dir, spans.drop_last()) {
            None => None,
            Some(before) => if !depends_on_place(path) {
                Some(before)
            } else if valid_utf8(moved) {
                Some(
                    before.push(
                        ReplacementModel {
                            start: last.start,
                            end: last.end,
                            text: toml_string_value(decode_utf8(moved)),
                        },
                    ),
                )
            } else {
                None
            },
        }
    }
}

/// Whether replacements stand in the order of the file.
pub open spec fn in_file_order(reps: Seq<ReplacementModel>) -> bool {
    forall|i: int, j: int|
        0 <= i < j < reps.len() ==> (#[trigger] reps[i]).start <= (#[trigger] reps[j]).start
}

/// Whether the bytes of a file that spans stand for lie within the file and do
/// not overlap.
pub open spec fn spans_fit(spans: Seq<SpannedModel>, len: int) -> bool {
    &&& forall|i: int|
        0 <= i < spans.len() ==> 0 <= (#[trigger] spans[i]).start < spans[i].end <= len
    &&& forall|i: int, j: int|
        0 <= i < spans.len() && 0 <= j < spans.len() && i != j ==> (#[trigger] spans[i]).end <= (
        #[trigger] spans[j]).start || spans[j].end <= spans[i].start
}

/// Whether the bytes that some paths stand in lie within a file of this length
/// and do not overlap.
pub fn spans_are_apart(spans: &Vec<SpannedPath>, len: usize) -> (res: bool)
    ensures
        res == spans_fit(spans_view(spans@), len as int),
{
    let ghost all = spans_view(spans@);
    let mut i: usize = 0;
    while i < spans.len()
        invariant
            i <= spans@.len(),
            all == spans_view(spans@),
            forall|k: int| 0 <= k < i ==> 0 <= (#[trigger] all[k]).start < all[k].end <= len,
            forall|a: int, b: int|
                0 <= a < i && 0 <= b < i && a != b ==> (#[trigger] all[a]).end <= (
                #[trigger] all[b]).start || all[b].end <= all[a].start,
        decreases spans@.len() - i,
    {
        assert(all[i as int] == spans@[i as int]@);
        if spans[i].start >= spans[i].end || spans[i].end > len {
            return false;
        }
        let mut j: usize = 0;
        while j < i
            invariant
                j <= i < spans@.len(),
                all == spans_view(spans@),
                all[i as int] == spans@[i as int]@,
                forall|b: int|
                    0 <= b < j ==> all[i as int].end <= (#[trigger] all[b]).start || all[b].end
                        <= all[i as int].start,
            decreases i - j,
        {
            assert(all[j as int] == spans@[j as int]@);
            if spans[i].end > spans[j].start && spans[j].end > spans[i].start {
                return false;
            }
            j += 1;
        }
        i += 1;
    }
    true
}

/// The part of a file from `from` on, with replacements put in, which stand in
/// the order of the file and after `from`.
pub open spec fn spliced(text: Seq<u8>, reps: Seq<ReplacementModel>, from: int) -> Seq<u8>
    decreases reps.len(),
{
    if reps.len() == 0 {
        text.skip(from)
    } else {
        text.subrange(from, reps[0].start) + encode_utf8(reps[0].text) + spliced(
            text,
            reps.drop_first(),
            reps[0].end,
        )
    }
}

/// Whether replacements that stand in the order of the file do not overlap and
/// lie within it, from `from` on.
pub open spec fn reps_fit(reps: Seq<ReplacementModel>, from: int, len: int) -> bool
    decreases reps.len(),
{
    if reps.len() == 0 {
        from <= len
    } else {
        from <= reps[0].start <= reps[0].end <= len && reps_fit(
            reps.drop_first(),
            reps[0].end,
            len,
        )
    }
}

/// Whether replacements are apart and within a file.
pub open spec fn reps_apart(reps: Seq<ReplacementModel>, len: int) -> bool {
    &&& forall|i: int|
        0 <= i < reps.len() ==> 0 <= (#[trigger] reps[i]).start < reps[i].end <= len
    &&& forall|i: int, j: int|
        0 <= i < reps.len() && 0 <= j < reps.len() && i != j ==> (#[trigger] reps[i]).end <= (
        #[trigger] reps[j]).start || reps[j].end <= reps[i].start
}

proof fn lemma_reps_fit(reps: Seq<ReplacementModel>, from: int, len: int)
    requires
        reps_apart(reps, len),
        in_file_order(reps),
        from <= len,
        reps.len() > 0 ==> from <= reps[0].start,
    ensures
        reps_fit(reps, from, len),
    decreases reps.len(),
{
    if reps.len() > 0 {
        let rest = reps.drop_first();
        assert forall|i: int| 0 <= i < rest.len() implies 0 <= (#[trigger] rest[i]).start
            < rest[i].end <= len by {
            assert(rest[i] == reps[i + 1]);
        }
        assert forall|i: int, j: int|
            0 <= i < rest.len() && 0 <= j < rest.len() && i != j implies (
        #[trigger] rest[i]).end <= (#[trigger] rest[j]).start || rest[j].end <= rest[i].start by {
            assert(rest[i] == reps[i + 1] && rest[j] == reps[j + 1]);
        }
        assert forall|i: int, j: int| 0 <= i < j < rest.len() implies (
        #[trigger] rest[i]).start <= (#[trigger] rest[j]).start by {
            assert(rest[i] == reps[i + 1] && rest[j] == reps[j + 1]);
        }
        if rest.len() > 0 {
            assert(rest[0] == reps[1]);
            assert(reps[0].start <= reps[1].start);
            assert(reps[0].end <= reps[1].start || reps[1].end <= reps[0].start);
        }
        lemma_reps_fit(rest, reps[0].end, len);
    }
}

/// `after` holds the items of `before`, in the order of the file.
pub open spec fn sorted_replacements(
    before: Seq<ReplacementModel>,
    after: Seq<ReplacementModel>,
) -> bool {
    in_file_order(after) && after.to_multiset() == before.to_multiset()
}

/// Whether some bytes are a file with replacements put in.
pub open spec fn replaced(text: Seq<u8>, reps: Seq<ReplacementModel>, bytes: Seq<u8>) -> bool {
    exists|ordered: Seq<ReplacementModel>| #[trigger]
        sorted_replacements(reps, ordered) && bytes == spliced(text, ordered, 0)
}

fn sort_replacements(reps: Vec<Replacement>) -> (res: Vec<Replacement>)
    ensures
        sorted_replacements(replacements_view(reps@), replacements_view(res@)),
{
    broadcast use vstd::seq_lib::group_to_multiset_ensures;

    let ghost all = replacements_view(reps@);
    let mut rest = reps;
    let mut out: Vec<Replacement> = Vec::new();
    let ghost mut done: Seq<ReplacementModel> = seq![];
    assert(replacements_view(out@) =~= done);
    assert(all =~= done + replacements_view(rest@));
    while rest.len() > 0
        invariant
            all == done + replacements_view(rest@),
            in_file_order(replacements_view(out@)),
            replacements_view(out@).to_multiset() == done.to_multiset(),
        decreases rest@.len(),
    {
        let ghost before = rest@;
        let item = rest.remove(0);
        let ghost model = item@;
        let mut p: usize = out.len();
        let ghost sofar = replacements_view(out@);
        while p > 0 && item.start < out[p - 1].start
            invariant
                p <= out@.len(),
                sofar == replacements_view(out@),
                model == item@,
                forall|k: int|
                    p <= k < sofar.len() ==> model.start < (#[trigger] sofar[k]).start,
            decreases p,
        {
            assert(sofar[p - 1] == out@[p - 1]@);
            p -= 1;
        }
        if p > 0 {
            assert(sofar[p - 1] == out@[p - 1]@);
        }
        out.insert(p, item);
        proof {
            let now = sofar.insert(p as int, model);
            assert(replacements_view(out@) =~= now);
            assert forall|i: int, j: int| 0 <= i < j < now.len() implies (
            #[trigger] now[i]).start <= (#[trigger] now[j]).start by {
                if i == p {
                    assert(now[j] == sofar[j - 1]);
                } else if j == p {
                    assert(now[i] == sofar[i]);
                    if i < p - 1 {
                        assert(sofar[i].start <= sofar[p - 1].start);
                    }
                } else {
                    let oi = if i < p {
                        i
                    } else {
                        i - 1
                    };
                    let oj = if j < p {
                        j
                    } else {
                        j - 1
                    };
                    assert(now[i] == sofar[oi] && now[j] == sofar[oj]);
                }
            }
            lemma_insert_multiset(sofar, p as int, model);
            lemma_insert_multiset(done, done.len() as int, model);
            assert(done.insert(done.len() as int, model) =~= done.push(model));
            assert(replacements_view(before)[0] == model);
            assert(replacements_view(before) =~= seq![model] + replacements_view(rest@)) by {
                assert forall|k: int| 0 <= k < before.len() implies replacements_view(before)[k]
                    == (seq![model] + replacements_view(rest@))[k] by {
                    if k > 0 {
                        assert(rest@[k - 1] == before[k]);
                    }
                }
            }
            assert(all =~= done.push(model) + replacements_view(rest@));
            done = done.push(model);
        }
    }
    assert(done =~= all);
    out
}

proof fn lemma_apart_permutation(
    before: Seq<ReplacementModel>,
    after: Seq<ReplacementModel>,
    len: int,
)
    requires
        reps_apart(before, len),
        after.to_multiset() == before.to_multiset(),
    ensures
        reps_apart(after, len),
{
    broadcast use vstd::seq_lib::group_to_multiset_ensures;

    assert forall|i: int| 0 <= i < after.len() implies 0 <= (#[trigger] after[i]).start
        < after[i].end <= len by {
        assert(after.contains(after[i]));
        assert(after.to_multiset().count(after[i]) > 0);
        assert(before.to_multiset().count(after[i]) > 0);
        assert(before.contains(after[i]));
        let k = choose|k: int| 0 <= k < before.len() && before[k] == after[i];
        assert(before[k].start >= 0);
    }
    assert forall|i: int, j: int| 0 <= i < after.len() && 0 <= j < after.len() && i != j implies (
    #[trigger] after[i]).end <= (#[trigger] after[j]).start || after[j].end
        <= after[i].start by {
        let x = after[i];
        let y = after[j];
        assert(after.contains(x) && after.contains(y));
        assert(after.to_multiset().count(x) > 0 && after.to_multiset().count(y) > 0);
        assert(before.to_multiset().count(x) > 0 && before.to_multiset().count(y) > 0);
        assert(before.contains(x) && before.contains(y));
        if x == y {
            // The same item twice would have to stand twice in `before`, but
            // no item is apart from itself.
            let cut = after.remove(i);
            assert(after =~= cut.insert(i, x));
            assert(after.to_multiset() =~= cut.to_multiset().insert(x)) by {
                lemma_insert_multiset(cut, i, x);
            }
            let jj = if j < i {
                j
            } else {
                j - 1
            };
            assert(cut[jj] == x);
            assert(cut.contains(x));
            assert(cut.to_multiset().count(x) > 0);
            assert(after.to_multiset().count(x) >= 2);
            let a = choose|a: int| 0 <= a < before.len() && before[a] == x;
            let short = before.remove(a);
            assert(before =~= short.insert(a, x));
            lemma_insert_multiset(short, a, x);
            assert(short.to_multiset().count(x) >= 1);
            assert(short.contains(x));
            let b = choose|b: int| 0 <= b < short.len() && short[b] == x;
            let bb = if b < a {
                b
            } else {
                b + 1
            };
            assert(before[bb] == x);
            assert(before[a].end <= before[bb].start || before[bb].end <= before[a].start);
        } else {
            let a = choose|a: int| 0 <= a < before.len() && before[a] == x;
            let b = choose|b: int| 0 <= b < before.len() && before[b] == y;
            assert(a != b);
            assert(before[a].end <= before[b].start || before[b].end <= before[a].start);
        }
    }
}

proof fn lemma_insert_multiset(s: Seq<ReplacementModel>, p: int, x: ReplacementModel)
    requires
        0 <= p <= s.len(),
    ensures
        s.insert(p, x).to_multiset() == s.to_multiset().insert(x),
{
    broadcast use vstd::seq_lib::group_to_multiset_ensures;

    let now = s.insert(p, x);
    assert(now =~= s.take(p) + seq![x] + s.skip(p));
    assert(s =~= s.take(p) + s.skip(p));
    vstd::seq_lib::lemma_multiset_commutative(s.take(p) + seq![x], s.skip(p));
    vstd::seq_lib::lemma_multiset_commutative(s.take(p), s.skip(p));
    assert(s.take(p) + seq![x] =~= s.take(p).push(x));
    assert(now.to_multiset() =~= s.to_multiset().insert(x));
}

fn splice(text: &Vec<u8>, reps: &Vec<Replacement>) -> (res: Vec<u8>)
    requires
        reps_fit(replacements_view(reps@), 0, text@.len() as int),
    ensures
        res@ == spliced(text@, replacements_view(reps@), 0),
{
    let ghost all = replacements_view(reps@);
    let mut out: Vec<u8> = Vec::new();
    let mut from: usize = 0;
    let mut i: usize = 0;
    assert(all.skip(0) =~= all);
    assert(out@ + spliced(text@, all.skip(0), 0) =~= spliced(text@, all, 0));
    while i < reps.len()
        invariant
            i <= reps@.len(),
            all == replacements_view(reps@),
            from <= text@.len(),
            reps_fit(all.skip(i as int), from as int, text@.len() as int),
            out@ + spliced(text@, all.skip(i as int), from as int) == spliced(text@, all, 0),
        decreases reps@.len() - i,
    {
        let ghost before = out@;
        let ghost rest = all.skip(i as int);
        let ghost begin = from as int;
        assert(rest[0] == reps@[i as int]@);
        assert(rest.drop_first() =~= all.skip(i + 1));
        let piece = copy_bytes(text, from, reps[i].start);
        append_bytes(&mut out, &piece);
        let put = FsPath::new(reps[i].text.as_str());
        append_bytes(&mut out, put.as_bytes());
        from = reps[i].end;
        assert(out@ + spliced(text@, all.skip(i + 1), from as int) =~= before + spliced(
            text@,
            rest,
            begin,
        ));
        i += 1;
    }
    let tail = copy_bytes(text, from, text.len());
    assert(tail@ =~= text@.skip(from as int));
    assert(all.skip(all.len() as int) =~= seq![]);
    append_bytes(&mut out, &tail);
    out
}

proof fn lemma_reps_come_from_spans(
    dir: Seq<u8>,
    spans: Seq<SpannedModel>,
    reps: Seq<ReplacementModel>,
    len: int,
)
    requires
        rebased(dir, spans) == Some(reps),
        spans_fit(spans, len),
    ensures
        forall|k: int|
            0 <= k < reps.len() ==> exists|m: int|
                0 <= m < spans.len() && (#[trigger] spans[m]).start == (#[trigger] reps[k]).start
                    && spans[m].end == reps[k].end,
        reps_apart(reps, len),
    decreases spans.len(),
{
    if spans.len() > 0 {
        let rest = spans.drop_last();
        let n = rest.len() as int;
        let before = rebased(dir, rest)->Some_0;
        assert forall|i: int| 0 <= i < rest.len() implies #[trigger] rest[i] == spans[i] by {}
        assert(spans_fit(rest, len)) by {
            assert forall|i: int| 0 <= i < rest.len() implies 0 <= (#[trigger] rest[i]).start
                < rest[i].end <= len by {
                assert(rest[i] == spans[i]);
            }
            assert forall|i: int, j: int|
                0 <= i < rest.len() && 0 <= j < rest.len() && i != j implies (
            #[trigger] rest[i]).end <= (#[trigger] rest[j]).start || rest[j].end
                <= rest[i].start by {
                assert(rest[i] == spans[i] && rest[j] == spans[j]);
            }
        }
        lemma_reps_come_from_spans(dir, rest, before, len);
        assert forall|k: int| 0 <= k < reps.len() implies exists|m: int|
            0 <= m < spans.len() && (#[trigger] spans[m]).start == (#[trigger] reps[k]).start
                && spans[m].end == reps[k].end by {
            if k < before.len() {
                assert(reps[k] == before[k]);
                let m = choose|m: int|
                    0 <= m < rest.len() && (#[trigger] rest[m]).start == (
                    #[trigger] before[k]).start && rest[m].end == before[k].end;
                assert(spans[m] == rest[m]);
            } else {
                assert(spans[n].start == reps[k].start);
            }
        }
        assert forall|i: int| 0 <= i < reps.len() implies 0 <= (#[trigger] reps[i]).start
            < reps[i].end <= len by {
            let m = choose|m: int|
                0 <= m < spans.len() && (#[trigger] spans[m]).start == (#[trigger] reps[i]).start
                    && spans[m].end == reps[i].end;
            assert(0 <= spans[m].start < spans[m].end <= len);
        }
        assert forall|i: int, j: int| 0 <= i < reps.len() && 0 <= j < reps.len() && i
            != j implies (#[trigger] reps[i]).end <= (#[trigger] reps[j]).start || reps[j].end
            <= reps[i].start by {
            if i < before.len() && j < before.len() {
                assert(reps[i] == before[i] && reps[j] == before[j]);
            } else {
                let k = if i < before.len() {
                    i
                } else {
                    j
                };
                assert(reps[k] == before[k]);
                let m = choose|m: int|
                    0 <= m < rest.len() && (#[trigger] rest[m]).start == (
                    #[trigger] before[k]).start && rest[m].end == before[k].end;
                assert(rest[m] == spans[m]);
                assert(spans[m].end <= spans[n].start || spans[n].end <= spans[m].start);
            }
        }
    }
}

/// The text of a roster file.
pub fn config_text(bytes: &Vec<u8>) -> (res: Result<String, String>)
    ensures
        match res {
            Ok(text) => encode_utf8(text@) == bytes@,
            Err(message) => !valid_utf8(bytes@) && message@ == "config file is not UTF-8"@,
        },
{
    let path = FsPath::from_bytes(copy_bytes(bytes, 0, bytes.len()));
    assert(path@ =~= bytes@);
    match path.to_text() {
        Some(text) => Ok(text),
        None => Err(String::from_str("config file is not UTF-8")),
    }
}

/// The bytes of a roster file at its new place: every path that depends on the
/// place of the file is written out from the former place, and every other
/// byte stays. `spans` are the paths that were found in the file.
pub fn migrated_config_bytes(legacy: &FsPath, text: &Vec<u8>, spans: &Vec<SpannedPath>) -> (res:
    Result<Vec<u8>, String>)
    requires
        spans_fit(spans_view(spans@), text@.len() as int),
    ensures
        match parent_path(legacy@) {
            None => res matches Err(m) && m@ == "legacy config path has no parent directory"@,
            Some(dir) => match rebased(dir, spans_view(spans@)) {
                None => res matches Err(m) && m@ == "migrated repository path is not valid UTF-8"@,
                Some(reps) => res matches Ok(bytes) && replaced(text@, reps, bytes@),
            },
        },
{
    let dir = match legacy.parent() {
        Some(dir) => dir,
        None => return Err(String::from_str("legacy config path has no parent directory")),
    };
    let ghost all = spans_view(spans@);
    let mut reps: Vec<Replacement> = Vec::new();
    let mut i: usize = 0;
    assert(all.take(0) =~= Seq::<SpannedModel>::empty());
    assert(replacements_view(reps@) =~= seq![]);
    while i < spans.len()
        invariant
            i <= spans@.len(),
            all == spans_view(spans@),
            rebased(dir@, all.take(i as int)) == Some(replacements_view(reps@)),
            parent_path(legacy@) == Some(dir@),
        decreases spans@.len() - i,
    {
        let ghost before = reps@;
        let ghost now = all.take(i + 1);
        assert(now.drop_last() =~= all.take(i as int));
        assert(now.last() == spans@[i as int]@);
        let original = FsPath::new(spans[i].path.as_str());
        if !original.is_absolute() && !original.starts_at_home() {
            let moved = dir.join(&original);
            match moved.to_text() {
                Some(place) => {
                    proof {
                        encode_utf8_decode_utf8(place@);
                    }
                    let literal = toml_string(place.as_str());
                    let rep = Replacement {
                        start: spans[i].start,
                        end: spans[i].end,
                        text: literal,
                    };
                    let ghost shown = rep@;
                    reps.push(rep);
                    assert(replacements_view(reps@) =~= replacements_view(before).push(shown));
                },
                None => {
                    proof {
                        lemma_rebased_fails(dir@, all, i + 1);
                    }
                    return Err(String::from_str("migrated repository path is not valid UTF-8"));
                },
            }
        }
        i += 1;
    }
    assert(all.take(all.len() as int) =~= all);
    let ghost model = replacements_view(reps@);
    proof {
        lemma_reps_come_from_spans(dir@, all, model, text@.len() as int);
    }
    let ordered = sort_replacements(reps);
    let ghost sorted = replacements_view(ordered@);
    proof {
        lemma_apart_permutation(model, sorted, text@.len() as int);
        lemma_reps_fit(sorted, 0, text@.len() as int);
    }
    let bytes = splice(text, &ordered);
    assert(rebased(dir@, spans_view(spans@)) == Some(model));
    assert(sorted_replacements(model, sorted) && bytes@ == spliced(text@, sorted, 0));
    assert(replaced(text@, model, bytes@));
    Ok(bytes)
}

proof fn lemma_rebased_fails(dir: Seq<u8>, spans: Seq<SpannedModel>, n: int)
    requires
        0 <= n <= spans.len(),
        rebased(dir, spans.take(n)) is None,
    ensures
        rebased(dir, spans) is None,
    decreases spans.len() - n,
{
    if n == spans.len() {
        assert(spans.take(n) =~= spans);
    } else {
        assert(spans.take(n + 1).drop_last() =~= spans.take(n));
        lemma_rebased_fails(dir, spans, n + 1);
    }
}

// ---------------------------------------------------------------------------
// Laws
// ---------------------------------------------------------------------------

/// The step after a sequence of outcomes.
pub open spec fn file_after(job: FileJobModel, events: Seq<FileEvent>) -> FileStepModel
    decreases events.len(),
{
    if events.len() == 0 {
        FileStepModel::InspectCanonical
    } else {
        file_next(job, file_after(job, events.drop_last()), events.last())
    }
}

/// Whether something among some outcomes showed that the current file is
/// missing.
pub open spec fn saw_missing(events: Seq<FileEvent>) -> bool {
    exists|i: int|
        0 <= i < events.len() && #[trigger] events[i] == FileEvent::Canonical(ProbeModel::Missing)
}

/// Whether the check of the former file let these bytes pass.
pub open spec fn saw_valid(events: Seq<FileEvent>, bytes: Seq<u8>) -> bool {
    exists|i: int| 0 <= i < events.len() && #[trigger] events[i] == FileEvent::Validated(Ok(bytes))
}

spec fn far(step: FileStepModel) -> bool {
    !(step is InspectCanonical) && !(step is Finished)
}

proof fn lemma_file_history(job: FileJobModel, events: Seq<FileEvent>)
    ensures
        far(file_after(job, events)) ==> saw_missing(events),
        file_after(job, events) matches FileStepModel::Publish { bytes } ==> saw_valid(
            events,
            bytes,
        ),
        file_after(job, events) matches FileStepModel::Finished { result } && result is Migrated
            ==> saw_missing(events) && exists|bytes: Seq<u8>| #[trigger] saw_valid(events, bytes),
    decreases events.len(),
{
    if events.len() > 0 {
        let rest = events.drop_last();
        let n = events.len() - 1;
        lemma_file_history(job, rest);
        assert(events[n] == events.last());
        assert forall|i: int| 0 <= i < n implies #[trigger] rest[i] == events[i] by {}
        if saw_missing(rest) {
            let i = choose|i: int|
                0 <= i < rest.len() && #[trigger] rest[i] == FileEvent::Canonical(
                    ProbeModel::Missing,
                );
            assert(events[i] == FileEvent::Canonical(ProbeModel::Missing));
        }
        assert forall|bytes: Seq<u8>| #[trigger] saw_valid(rest, bytes) implies saw_valid(
            events,
            bytes,
        ) by {
            let i = choose|i: int|
                0 <= i < rest.len() && #[trigger] rest[i] == FileEvent::Validated(Ok(bytes));
            assert(events[i] == FileEvent::Validated(Ok(bytes)));
        }
        let before = file_after(job, rest);
        let now = file_after(job, events);
        match before {
            FileStepModel::Publish { bytes } => {
                assert(saw_valid(rest, bytes));
                assert(saw_valid(events, bytes));
            },
            FileStepModel::Validate { .. } => {
                match now {
                    FileStepModel::Publish { bytes } => {
                        assert(events[n] == FileEvent::Validated(Ok(bytes)));
                    },
                    _ => {},
                }
            },
            FileStepModel::InspectCanonical => {
                if far(now) {
                    assert(events[n] == FileEvent::Canonical(ProbeModel::Missing));
                }
            },
            FileStepModel::Finished { result } => {
                assert(now == before);
                if result is Migrated {
                    let bytes = choose|bytes: Seq<u8>| #[trigger] saw_valid(rest, bytes);
                    assert(saw_valid(events, bytes));
                }
            },
            _ => {},
        }
    }
}

/// A file is put in place only where the current one was missing and the check
/// let exactly these bytes pass: a current file is never touched, and nothing
/// invalid is taken over.
pub proof fn law_only_checked_bytes_are_published(
    job: FileJobModel,
    events: Seq<FileEvent>,
    bytes: Seq<u8>,
)
    requires
        file_after(job, events) == (FileStepModel::Publish { bytes }),
    ensures
        saw_missing(events),
        saw_valid(events, bytes),
{
    lemma_file_history(job, events);
}

/// A file counts as taken over only after that.
pub proof fn law_only_published_files_are_reported(job: FileJobModel, events: Seq<FileEvent>)
    requires
        file_after(job, events) matches FileStepModel::Finished { result } && result is Migrated,
    ensures
        saw_missing(events),
        exists|bytes: Seq<u8>| #[trigger] saw_valid(events, bytes),
{
    lemma_file_history(job, events);
}

/// Problems with the preferences never keep a command from running, and any
/// other problem does.
pub proof fn law_only_preferences_are_optional(problems: Seq<ProblemModel>)
    ensures
        first_fatal(problems) is None <==> forall|i: int|
            0 <= i < problems.len() ==> (#[trigger] problems[i]).artifact
                == MigrationArtifact::UiState,
    decreases problems.len(),
{
    if problems.len() > 0 {
        let rest = problems.drop_first();
        law_only_preferences_are_optional(rest);
        assert forall|i: int| 0 <= i < rest.len() implies #[trigger] rest[i] == problems[i
            + 1] by {}
        if forall|i: int|
            0 <= i < problems.len() ==> (#[trigger] problems[i]).artifact
                == MigrationArtifact::UiState {
            assert(problems[0].artifact == MigrationArtifact::UiState);
            assert forall|i: int| 0 <= i < rest.len() implies (#[trigger] rest[i]).artifact
                == MigrationArtifact::UiState by {
                assert(rest[i] == problems[i + 1]);
            }
        }
        if first_fatal(problems) is None {
            assert forall|i: int| 0 <= i < problems.len() implies (
            #[trigger] problems[i]).artifact == MigrationArtifact::UiState by {
                if i > 0 {
                    assert(rest[i - 1] == problems[i]);
                }
            }
        }
    }
}

/// A roster whose paths do not depend on its place is taken over byte for
/// byte.
pub proof fn law_absolute_rosters_stay_as_they_are(
    dir: Seq<u8>,
    spans: Seq<SpannedModel>,
    text: Seq<u8>,
    bytes: Seq<u8>,
)
    requires
        forall|i: int|
            0 <= i < spans.len() ==> !depends_on_place(encode_utf8((#[trigger] spans[i]).path)),
    ensures
        rebased(dir, spans) is Some,
        replaced(text, rebased(dir, spans)->Some_0, bytes) ==> bytes == text,
{
    broadcast use vstd::seq_lib::group_to_multiset_ensures;

    lemma_nothing_to_rebase(dir, spans);
    if replaced(text, rebased(dir, spans)->Some_0, bytes) {
        let ordered = choose|ordered: Seq<ReplacementModel>| #[trigger]
            sorted_replacements(rebased(dir, spans)->Some_0, ordered) && bytes == spliced(
                text,
                ordered,
                0,
            );
        let none: Seq<ReplacementModel> = seq![];
        assert(ordered.to_multiset().len() == none.to_multiset().len());
        assert(ordered =~= none);
        assert(text.skip(0) =~= text);
    }
}

proof fn lemma_nothing_to_rebase(dir: Seq<u8>, spans: Seq<SpannedModel>)
    requires
        forall|i: int|
            0 <= i < spans.len() ==> !depends_on_place(encode_utf8((#[trigger] spans[i]).path)),
    ensures
        rebased(dir, spans) == Some(Seq::<ReplacementModel>::empty()),
    decreases spans.len(),
{
    if spans.len() > 0 {
        let rest = spans.drop_last();
        assert forall|i: int| 0 <= i < rest.len() implies !depends_on_place(
            encode_utf8((#[trigger] rest[i]).path),
        ) by {
            assert(rest[i] == spans[i]);
        }
        lemma_nothing_to_rebase(dir, rest);
        assert(spans[spans.len() - 1] == spans.last());
    }
}

// ---------------------------------------------------------------------------
// Whole migrations
// ---------------------------------------------------------------------------

/// Whether a path can be found like this on a disk.
pub open spec fn probe_tells(disk: Disk, path: Seq<u8>, probe: ProbeModel) -> bool {
    match probe {
        ProbeModel::Present => at(disk, path) is Some,
        ProbeModel::Missing => at(disk, path) is None,
        ProbeModel::Failed(_) => true,
    }
}

/// Whether a place is that of a directory above a path.
pub open spec fn above(place: Seq<Seq<u8>>, path: Seq<u8>) -> bool {
    place.is_prefix_of(components(path)) && place.len() < components(path).len()
}

/// Whether all that is new on a disk are directories above a path.
pub open spec fn adds_dirs(before: Disk, after: Disk, path: Seq<u8>) -> bool {
    &&& keeps(before, after)
    &&& forall|place: Seq<Seq<u8>>| #[trigger]
        after.contains_key(place) && !before.contains_key(place) ==> after[place] is Dir && above(
            place,
            path,
        )
}

/// Whether all that is new on a disk is a file, and directories above it.
pub open spec fn adds_file(before: Disk, after: Disk, path: Seq<u8>, bytes: Seq<u8>) -> bool {
    &&& keeps(before, after)
    &&& at(before, path) is None
    &&& at(after, path) == Some(Entry::File(bytes))
    &&& forall|place: Seq<Seq<u8>>| #[trigger]
        after.contains_key(place) && !before.contains_key(place) ==> place == components(path) || (
        after[place] is Dir && above(place, path))
}

/// Whether `event` is what comes of a step for a file on `disk`, and `after` is
/// the disk then. Putting a file in place replaces nothing, even where it fails
/// halfway.
pub open spec fn file_does(
    job: FileJobModel,
    disk: Disk,
    step: FileStepModel,
    event: FileEvent,
    after: Disk,
) -> bool {
    match (step, event) {
        (FileStepModel::InspectCanonical, FileEvent::Canonical(probe)) => after == disk
            && probe_tells(disk, job.canonical, probe),
        (FileStepModel::InspectLegacy, FileEvent::Legacy(probe)) => after == disk && probe_tells(
            disk,
            job.legacy,
            probe,
        ),
        (FileStepModel::Open, FileEvent::Opened(_)) => after == disk,
        (FileStepModel::ReadMetadata, FileEvent::Metadata(_)) => after == disk,
        (FileStepModel::Read, FileEvent::Bytes(_)) => after == disk,
        (FileStepModel::Validate { .. }, FileEvent::Validated(_)) => after == disk,
        (FileStepModel::Publish { bytes }, FileEvent::Published(result)) => match result {
            Ok(PublishOutcome::Published) => adds_file(disk, after, job.canonical, bytes),
            Ok(PublishOutcome::CanonicalWon) => at(disk, job.canonical) is Some && adds_dirs(
                disk,
                after,
                job.canonical,
            ),
            Err(_) => keeps(disk, after),
        },
        _ => false,
    }
}

/// Whether the files under the former name are the same on two disks.
pub open spec fn same_former(p: PathsModel, before: Disk, after: Disk) -> bool {
    &&& at(after, p.legacy_config_file) == at(before, p.legacy_config_file)
    &&& at(after, p.legacy_ui_state_file) == at(before, p.legacy_ui_state_file)
}

/// What other launches of the program may do to a disk meanwhile: they add to
/// it, and leave the files under the former name alone. Where this is the only
/// launch, nothing happens.
pub open spec fn meanwhile(p: PathsModel, alone: bool, before: Disk, after: Disk) -> bool {
    &&& keeps(before, after)
    &&& same_former(p, before, after)
    &&& alone ==> after == before
}

/// The work on one file: its steps, what came of each, and the disk before and
/// after each.
pub struct FileRun {
    pub steps: Seq<FileStepModel>,
    pub events: Seq<FileEvent>,
    pub disks: Seq<Disk>,
    pub done: Seq<Disk>,
}

/// Whether the work on a file went like this.
pub open spec fn is_file_run(p: PathsModel, job: FileJobModel, alone: bool, run: FileRun) -> bool {
    &&& run.steps.len() == run.events.len() + 1
    &&& run.disks.len() == run.steps.len()
    &&& run.done.len() == run.events.len()
    &&& run.steps[0] is InspectCanonical
    &&& run.steps.last() is Finished
    &&& forall|i: int|
        0 <= i < run.events.len() ==> {
            &&& file_does(job, #[trigger] run.disks[i], run.steps[i], run.events[i], run.done[i])
            &&& meanwhile(p, alone, run.done[i], run.disks[i + 1])
            &&& run.steps[i + 1] == file_next(job, run.steps[i], run.events[i])
        }
}

/// What the work on a file came to.
pub open spec fn run_result(run: FileRun) -> FileResultModel {
    run.steps.last()->Finished_result
}

/// Whether a file needs no work: the current one is there, or the former one is
/// not.
pub open spec fn settled(job: FileJobModel, disk: Disk) -> bool {
    at(disk, job.canonical) is Some || at(disk, job.legacy) is None
}

/// A whole migration: how the files were found, what came of each step, and the
/// disk at each stage.
pub struct MigrationRun {
    /// Whether no other launch was at it meanwhile.
    pub alone: bool,
    /// How the current and the former roster were found.
    pub config_found: (ProbeModel, ProbeModel),
    /// How the current and the former preferences were found.
    pub ui_state_found: (ProbeModel, ProbeModel),
    pub start: Disk,
    pub before_root: Disk,
    pub root: Result<(), IoFailureModel>,
    pub with_root: Disk,
    pub before_lock: Disk,
    pub opened: Result<(), IoFailureModel>,
    pub with_lock: Disk,
    pub locked: Result<(), IoFailureModel>,
    pub config: FileRun,
    pub ui_state: FileRun,
    pub report: ReportModel,
    pub end: Disk,
}

/// Whether a migration ended at `step` with `disk`.
pub open spec fn ended_at(m: MigrationRun, step: MigrationStepModel, disk: Disk) -> bool {
    step == (MigrationStepModel::Done { report: m.report }) && m.end == disk
}

/// The first step of a migration, given how the files were found.
pub open spec fn first_step(p: PathsModel, m: MigrationRun) -> MigrationStepModel {
    migration_start(
        p,
        may_migrate(m.config_found.0, m.config_found.1),
        may_migrate(m.ui_state_found.0, m.ui_state_found.1),
    )
}

/// Whether a migration went like this.
pub open spec fn is_migration(p: PathsModel, m: MigrationRun) -> bool {
    let first = first_step(p, m);
    let second = migration_next(p, first, MigrationEvent::RootCreated(m.root));
    let third = migration_next(p, second, MigrationEvent::LockOpened(m.opened));
    let fourth = migration_next(p, third, MigrationEvent::Locked(m.locked));
    &&& probe_tells(m.start, p.config_file, m.config_found.0)
    &&& probe_tells(m.start, p.legacy_config_file, m.config_found.1)
    &&& probe_tells(m.start, p.ui_state_file, m.ui_state_found.0)
    &&& probe_tells(m.start, p.legacy_ui_state_file, m.ui_state_found.1)
    &&& if first is Done {
        ended_at(m, first, m.start)
    } else {
        &&& meanwhile(p, m.alone, m.start, m.before_root)
        &&& adds_dirs(m.before_root, m.with_root, p.migration_lock_file)
        &&& if second is Done {
            ended_at(m, second, m.with_root)
        } else {
            &&& meanwhile(p, m.alone, m.with_root, m.before_lock)
            &&& m.with_lock == m.before_lock || adds_file(
                m.before_lock,
                m.with_lock,
                p.migration_lock_file,
                seq![],
            )
            &&& if third is Done || fourth is Done {
                ended_at(
                    m,
                    if third is Done {
                        third
                    } else {
                        fourth
                    },
                    m.with_lock,
                )
            } else {
                &&& meanwhile(p, m.alone, m.with_lock, m.config.disks[0])
                &&& is_file_run(p, config_job(p), m.alone, m.config)
                &&& meanwhile(p, m.alone, m.config.disks.last(), m.ui_state.disks[0])
                &&& is_file_run(p, ui_state_job(p), m.alone, m.ui_state)
                &&& ended_at(
                    m,
                    migration_next(
                        p,
                        fourth,
                        MigrationEvent::FilesMigrated {
                            config: run_result(m.config),
                            ui_state: run_result(m.ui_state),
                        },
                    ),
                    m.ui_state.disks.last(),
                )
            }
        }
    }
}

/// Whether no root was put where a former file is looked for: a root is a
/// directory.
pub open spec fn roots_apart(config_root: Seq<u8>, data_root: Seq<u8>) -> bool {
    let p = paths_below(config_root, data_root);
    outside(p.legacy_ui_state_file, config_root) && outside(p.legacy_config_file, data_root)
}

/// Whether a path is not, nor lies below, one of the former files.
spec fn apart(p: PathsModel, path: Seq<u8>) -> bool {
    outside(p.legacy_config_file, path) && outside(p.legacy_ui_state_file, path)
}

proof fn lemma_files_apart(config_root: Seq<u8>, data_root: Seq<u8>)
    requires
        roots_apart(config_root, data_root),
    ensures
        ({
            let p = paths_below(config_root, data_root);
            apart(p, p.config_file) && apart(p, p.ui_state_file) && apart(p, p.migration_lock_file)
        }),
{
    let p = paths_below(config_root, data_root);
    let (now, former) = (encode_utf8("hank"@), encode_utf8("federated-beads"@));
    let (config, ui) = (encode_utf8("config.toml"@), encode_utf8("ui_state.json"@));
    let lock = encode_utf8(".hank-migration.lock"@);
    lemma_own_names();
    lemma_two_names(config_root, now, config);
    lemma_two_names(config_root, former, config);
    lemma_two_names(data_root, now, ui);
    lemma_two_names(data_root, former, ui);
    lemma_two_names(data_root, now, lock);
    lemma_file_outside(p.legacy_ui_state_file, config_root, now, config);
    lemma_file_outside(p.legacy_config_file, data_root, now, ui);
    lemma_file_outside(p.legacy_config_file, data_root, now, lock);
    let lc = components(p.legacy_config_file);
    let lu = components(p.legacy_ui_state_file);
    let n = components(config_root).len();
    let k = components(data_root).len();
    if lc.is_prefix_of(components(p.config_file)) {
        assert(lc =~= components(p.config_file).subrange(0, lc.len() as int));
        assert(lc[n as int] == components(p.config_file)[n as int]);
    }
    if lu.is_prefix_of(components(p.ui_state_file)) {
        assert(lu =~= components(p.ui_state_file).subrange(0, lu.len() as int));
        assert(lu[k as int] == components(p.ui_state_file)[k as int]);
    }
    if lu.is_prefix_of(components(p.migration_lock_file)) {
        assert(lu =~= components(p.migration_lock_file).subrange(0, lu.len() as int));
        assert(lu[k as int] == components(p.migration_lock_file)[k as int]);
    }
}

proof fn lemma_two_names(root: Seq<u8>, dir: Seq<u8>, file: Seq<u8>)
    requires
        plain_name(dir),
        plain_name(file),
    ensures
        components(joined(joined(root, dir), file)) == components(root).push(dir).push(file),
{
    law_join_adds_a_component(root, dir);
    law_join_adds_a_component(joined(root, dir), file);
}

proof fn lemma_keeps_on(a: Disk, b: Disk, c: Disk)
    requires
        keeps(a, b),
        keeps(b, c),
    ensures
        keeps(a, c),
{
    assert forall|place: Seq<Seq<u8>>| #[trigger] a.contains_key(place) implies c.get(place)
        == a.get(place) by {
        assert(b.get(place) == a.get(place));
        assert(b.contains_key(place));
    }
}

proof fn lemma_kept_at(before: Disk, after: Disk, path: Seq<u8>)
    requires
        keeps(before, after),
    ensures
        at(before, path) is Some ==> at(after, path) == at(before, path),
{
    assert(before.contains_key(components(path)) ==> at(after, path) == at(before, path));
}

proof fn lemma_new_spares_former(p: PathsModel, before: Disk, after: Disk, path: Seq<u8>)
    requires
        apart(p, path),
        keeps(before, after),
        forall|place: Seq<Seq<u8>>| #[trigger]
            after.contains_key(place) && !before.contains_key(place) ==> place.is_prefix_of(
                components(path),
            ),
    ensures
        same_former(p, before, after),
{
    lemma_kept_at(before, after, p.legacy_config_file);
    lemma_kept_at(before, after, p.legacy_ui_state_file);
    assert(!(after.contains_key(components(p.legacy_config_file)) && !before.contains_key(
        components(p.legacy_config_file),
    )));
    assert(!(after.contains_key(components(p.legacy_ui_state_file)) && !before.contains_key(
        components(p.legacy_ui_state_file),
    )));
}

proof fn lemma_whole_is_prefix(s: Seq<Seq<u8>>)
    ensures
        s.is_prefix_of(s),
{
    assert(s =~= s.subrange(0, s.len() as int));
}

/// What holds of the work on a file when its step `i` begins.
spec fn file_run_so_far(
    p: PathsModel,
    job: FileJobModel,
    alone: bool,
    run: FileRun,
    i: int,
) -> bool {
    let (start, now) = (run.disks[0], run.disks[i]);
    let step = run.steps[i];
    &&& keeps(start, now)
    &&& !(step matches FileStepModel::Finished { result } && result is Problem) ==> same_former(
        p,
        start,
        now,
    )
    &&& match step {
        FileStepModel::InspectCanonical => i == 0,
        FileStepModel::Finished { result } => match result {
            FileResultModel::Skipped => settled(job, now) && (alone ==> now == start),
            FileResultModel::Migrated(path) => {
                &&& path == job.canonical
                &&& at(now, path) is Some
                &&& !settled(job, start)
                &&& alone ==> exists|bytes: Seq<u8>| #[trigger]
                    adds_file(start, now, path, bytes)
            },
            FileResultModel::Problem(_) => settled(job, start) && alone ==> now == start,
        },
        FileStepModel::InspectLegacy => at(start, job.canonical) is None && (alone ==> now
            == start),
        _ => !settled(job, start) && (alone ==> now == start),
    }
}

proof fn lemma_file_run(p: PathsModel, job: FileJobModel, alone: bool, run: FileRun, i: int)
    requires
        is_file_run(p, job, alone, run),
        apart(p, job.canonical),
        job.legacy == p.legacy_config_file || job.legacy == p.legacy_ui_state_file,
        0 <= i < run.steps.len(),
    ensures
        file_run_so_far(p, job, alone, run, i),
    decreases i,
{
    if i > 0 {
        let k = i - 1;
        lemma_file_run(p, job, alone, run, k);
        let (start, disk, done, now) = (run.disks[0], run.disks[k], run.done[k], run.disks[i]);
        assert(file_does(job, disk, run.steps[k], run.events[k], done));
        assert(meanwhile(p, alone, done, now));
        assert(keeps(disk, done));
        lemma_keeps_on(start, disk, done);
        lemma_keeps_on(start, done, now);
        lemma_kept_at(start, disk, job.canonical);
        lemma_kept_at(done, now, job.canonical);
        lemma_kept_at(disk, done, job.canonical);
        lemma_whole_is_prefix(components(job.canonical));
        match (run.steps[k], run.events[k]) {
            (FileStepModel::Publish { bytes }, FileEvent::Published(Ok(_))) => {
                lemma_new_spares_former(p, disk, done, job.canonical);
                if alone && run.steps[i] == (FileStepModel::Finished {
                    result: FileResultModel::Migrated(job.canonical),
                }) {
                    assert(adds_file(start, now, job.canonical, bytes));
                }
            },
            _ => {},
        }
    }
}

/// Whatever a migration meets, it replaces and removes nothing.
pub proof fn law_a_migration_only_adds(config_root: Seq<u8>, data_root: Seq<u8>, m: MigrationRun)
    requires
        roots_apart(config_root, data_root),
        is_migration(paths_below(config_root, data_root), m),
    ensures
        keeps(m.start, m.end),
{
    let p = paths_below(config_root, data_root);
    lemma_files_apart(config_root, data_root);
    lemma_up_to_lock(p, m);
    if ran_files(p, m) {
        lemma_file_run(p, config_job(p), m.alone, m.config, m.config.steps.len() - 1);
        lemma_file_run(p, ui_state_job(p), m.alone, m.ui_state, m.ui_state.steps.len() - 1);
        lemma_keeps_on(m.start, m.with_lock, m.config.disks[0]);
        lemma_keeps_on(m.start, m.config.disks[0], m.config.disks.last());
        lemma_keeps_on(m.start, m.config.disks.last(), m.ui_state.disks[0]);
        lemma_keeps_on(m.start, m.ui_state.disks[0], m.end);
    }
}

/// Whether a migration came to the work on the files.
pub open spec fn ran_files(p: PathsModel, m: MigrationRun) -> bool {
    first_step(p, m) is CreateRoot && m.root is Ok && m.opened is Ok && m.locked is Ok
}

proof fn lemma_up_to_lock(p: PathsModel, m: MigrationRun)
    requires
        is_migration(p, m),
        apart(p, p.migration_lock_file),
    ensures
        !ran_files(p, m) ==> keeps(m.start, m.end) && same_former(p, m.start, m.end)
            && m.report.migrated.len() == 0,
        !ran_files(p, m) && m.report.problems.len() == 0 ==> first_step(p, m) is Done && m.end
            == m.start && m.report == no_report(),
        ran_files(p, m) ==> {
            &&& keeps(m.start, m.with_lock)
            &&& same_former(p, m.start, m.with_lock)
            &&& m.alone ==> forall|place: Seq<Seq<u8>>| #[trigger]
                m.with_lock.contains_key(place) && !m.start.contains_key(place) ==> (place
                    == components(p.migration_lock_file) && at(
                    m.with_lock,
                    p.migration_lock_file,
                ) == Some(Entry::File(seq![]))) || (m.with_lock[place] is Dir && above(
                    place,
                    p.migration_lock_file,
                ))
        },
{
    if !(first_step(p, m) is Done) {
        lemma_whole_is_prefix(components(p.migration_lock_file));
        lemma_new_spares_former(p, m.before_root, m.with_root, p.migration_lock_file);
        lemma_keeps_on(m.start, m.before_root, m.with_root);
        if m.root is Ok {
            lemma_keeps_on(m.start, m.with_root, m.before_lock);
            lemma_new_spares_former(p, m.before_lock, m.with_lock, p.migration_lock_file);
            lemma_keeps_on(m.start, m.before_lock, m.with_lock);
        }
    } else {
        assert(keeps(m.start, m.end));
    }
}

/// Whether what is new at a place is what a migration may create there: a file
/// that it reports as taken over, the lock, or a directory above one of them.
pub open spec fn may_create(
    p: PathsModel,
    report: ReportModel,
    place: Seq<Seq<u8>>,
    entry: Entry,
) -> bool {
    ||| place == components(p.config_file) && report.migrated.contains(p.config_file)
    ||| place == components(p.ui_state_file) && report.migrated.contains(p.ui_state_file)
    ||| place == components(p.migration_lock_file) && entry == Entry::File(seq![])
    ||| entry is Dir && (above(place, p.config_file) || above(place, p.ui_state_file) || above(
        place,
        p.migration_lock_file,
    ))
}

/// Whether all four files could be inspected.
pub open spec fn all_inspected(m: MigrationRun) -> bool {
    !(m.config_found.0 is Failed) && !(m.config_found.1 is Failed) && !(m.ui_state_found.0 is Failed)
        && !(m.ui_state_found.1 is Failed)
}

proof fn lemma_report_of_files(p: PathsModel, m: MigrationRun)
    requires
        is_migration(p, m),
        ran_files(p, m),
    ensures
        m.report.problems.len() == 0 ==> !(run_result(m.config) is Problem) && !(run_result(
            m.ui_state,
        ) is Problem),
        forall|path: Seq<u8>|
            run_result(m.config) == FileResultModel::Migrated(path) ==> #[trigger]
            m.report.migrated.contains(path),
        forall|path: Seq<u8>|
            run_result(m.ui_state) == FileResultModel::Migrated(path) ==> #[trigger]
            m.report.migrated.contains(path),
        !(run_result(m.config) is Migrated) && !(run_result(m.ui_state) is Migrated)
            ==> m.report.migrated.len() == 0,
        forall|k: int|
            0 <= k < m.report.migrated.len() ==> FileResultModel::Migrated(
                #[trigger] m.report.migrated[k],
            ) == run_result(m.config) || FileResultModel::Migrated(m.report.migrated[k])
                == run_result(m.ui_state),
{
    let one = recorded(no_report(), run_result(m.config));
    let two = recorded(one, run_result(m.ui_state));
    assert(m.report == two);
    match run_result(m.config) {
        FileResultModel::Migrated(path) => {
            assert(one.migrated[0] == path);
            assert(two.migrated[0] == path);
        },
        _ => {},
    }
    match run_result(m.ui_state) {
        FileResultModel::Migrated(path) => {
            assert(two.migrated[one.migrated.len() as int] == path);
        },
        _ => {},
    }
}

/// A migration without problems settles both files: afterwards each current
/// file is there, or there was no former one. All that was there before keeps
/// its content, the former files among it. Where no other launch is at it, the
/// only new things are the files that it reports, the lock, and directories
/// above them; never the hub or the cached snapshot. Where there are no former
/// files, nothing is created at all, not even the data directory.
pub proof fn law_a_clean_migration_settles_both_files(
    config_root: Seq<u8>,
    data_root: Seq<u8>,
    m: MigrationRun,
)
    requires
        roots_apart(config_root, data_root),
        is_migration(paths_below(config_root, data_root), m),
        m.report.problems.len() == 0,
    ensures
        ({
            let p = paths_below(config_root, data_root);
            &&& settled(config_job(p), m.end)
            &&& settled(ui_state_job(p), m.end)
            &&& keeps(m.start, m.end)
            &&& same_former(p, m.start, m.end)
            &&& forall|k: int|
                0 <= k < m.report.migrated.len() ==> {
                    let path = #[trigger] m.report.migrated[k];
                    (path == p.config_file || path == p.ui_state_file) && at(m.end, path) is Some
                }
            &&& m.alone ==> forall|place: Seq<Seq<u8>>| #[trigger]
                m.end.contains_key(place) && !m.start.contains_key(place) ==> may_create(
                    p,
                    m.report,
                    place,
                    m.end[place],
                )
            &&& m.alone && outside(hub_path(p), config_root) ==> at(m.end, hub_path(p)) == at(
                m.start,
                hub_path(p),
            )
            &&& m.alone && outside(p.cache_file, config_root) ==> at(m.end, p.cache_file) == at(
                m.start,
                p.cache_file,
            )
            &&& all_inspected(m) && at(m.start, p.legacy_config_file) is None && at(
                m.start,
                p.legacy_ui_state_file,
            ) is None ==> m.report == no_report() && m.end == m.start
        }),
{
    let p = paths_below(config_root, data_root);
    lemma_files_apart(config_root, data_root);
    lemma_up_to_lock(p, m);
    law_a_migration_only_adds(config_root, data_root, m);
    if ran_files(p, m) {
        lemma_report_of_files(p, m);
        let (c, u) = (m.config, m.ui_state);
        lemma_file_run(p, config_job(p), m.alone, c, c.steps.len() - 1);
        lemma_file_run(p, ui_state_job(p), m.alone, u, u.steps.len() - 1);
        lemma_kept_at(c.disks.last(), u.disks[0], p.config_file);
        lemma_kept_at(u.disks[0], m.end, p.config_file);
        if m.alone {
            assert forall|place: Seq<Seq<u8>>| #[trigger]
                m.end.contains_key(place) && !m.start.contains_key(place) implies may_create(
                p,
                m.report,
                place,
                m.end[place],
            ) by {
                lemma_what_is_new(p, m, place);
            }
        }
    }
    if m.alone {
        lemma_derived_files_stay(config_root, data_root, m);
    }
}

proof fn lemma_what_is_new(p: PathsModel, m: MigrationRun, place: Seq<Seq<u8>>)
    requires
        is_migration(p, m),
        apart(p, p.config_file),
        apart(p, p.ui_state_file),
        apart(p, p.migration_lock_file),
        ran_files(p, m),
        m.alone,
        m.report.problems.len() == 0,
        m.end.contains_key(place),
        !m.start.contains_key(place),
    ensures
        may_create(p, m.report, place, m.end[place]),
{
    let (c, u) = (m.config, m.ui_state);
    lemma_up_to_lock(p, m);
    lemma_report_of_files(p, m);
    lemma_file_run(p, config_job(p), m.alone, c, c.steps.len() - 1);
    lemma_file_run(p, ui_state_job(p), m.alone, u, u.steps.len() - 1);
    let (locked, between) = (m.with_lock, c.disks.last());
    assert(c.disks[0] == locked && u.disks[0] == between && u.disks.last() == m.end);
    assert(keeps(locked, between) && keeps(between, m.end));
    if !between.contains_key(place) {
        assert(run_result(u) is Migrated);
        let bytes = choose|bytes: Seq<u8>| #[trigger]
            adds_file(between, m.end, p.ui_state_file, bytes);
        assert(m.report.migrated.contains(p.ui_state_file));
    } else {
        assert(m.end.get(place) == between.get(place));
        if !locked.contains_key(place) {
            assert(run_result(c) is Migrated);
            let bytes = choose|bytes: Seq<u8>| #[trigger]
                adds_file(locked, between, p.config_file, bytes);
            assert(m.report.migrated.contains(p.config_file));
        } else {
            assert(between.get(place) == locked.get(place));
        }
    }
}

proof fn lemma_derived_files_stay(config_root: Seq<u8>, data_root: Seq<u8>, m: MigrationRun)
    requires
        m.alone,
        keeps(m.start, m.end),
        ({
            let p = paths_below(config_root, data_root);
            forall|place: Seq<Seq<u8>>| #[trigger]
                m.end.contains_key(place) && !m.start.contains_key(place) ==> may_create(
                    p,
                    m.report,
                    place,
                    m.end[place],
                )
        }),
    ensures
        ({
            let p = paths_below(config_root, data_root);
            &&& outside(hub_path(p), config_root) ==> at(m.end, hub_path(p)) == at(
                m.start,
                hub_path(p),
            )
            &&& outside(p.cache_file, config_root) ==> at(m.end, p.cache_file) == at(
                m.start,
                p.cache_file,
            )
        }),
{
    let p = paths_below(config_root, data_root);
    lemma_own_names();
    law_join_adds_a_component(data_root, encode_utf8("hank"@));
    law_join_adds_a_component(p.data_dir, encode_utf8("hub"@));
    law_join_adds_a_component(p.data_dir, encode_utf8("snapshot_cache.json"@));
    if outside(hub_path(p), config_root) {
        lemma_never_created(p, hub_path(p), config_root, data_root, m);
    }
    if outside(p.cache_file, config_root) {
        lemma_never_created(p, p.cache_file, config_root, data_root, m);
    }
}

proof fn lemma_never_created(
    p: PathsModel,
    path: Seq<u8>,
    config_root: Seq<u8>,
    data_root: Seq<u8>,
    m: MigrationRun,
)
    requires
        p == paths_below(config_root, data_root),
        outside(path, config_root),
        outside(path, data_root),
        components(path).len() > 0,
        components(path).last() == encode_utf8("hub"@) || components(path).last() == encode_utf8(
            "snapshot_cache.json"@,
        ),
        keeps(m.start, m.end),
        forall|place: Seq<Seq<u8>>| #[trigger]
            m.end.contains_key(place) && !m.start.contains_key(place) ==> may_create(
                p,
                m.report,
                place,
                m.end[place],
            ),
    ensures
        at(m.end, path) == at(m.start, path),
{
    let now = encode_utf8("hank"@);
    lemma_own_names();
    lemma_file_outside(path, config_root, now, encode_utf8("config.toml"@));
    lemma_file_outside(path, data_root, now, encode_utf8("ui_state.json"@));
    lemma_file_outside(path, data_root, now, encode_utf8(".hank-migration.lock"@));
    lemma_whole_is_prefix(components(path));
    lemma_kept_at(m.start, m.end, path);
    let place = components(path);
    if m.end.contains_key(place) && !m.start.contains_key(place) {
        assert(may_create(p, m.report, place, m.end[place]));
    }
}

/// A migration after one without problems takes over nothing, even if other
/// launches were at it in between; it creates nothing either, as long as the
/// files can be inspected, and never changes anything that is there.
pub proof fn law_a_second_migration_does_nothing(
    config_root: Seq<u8>,
    data_root: Seq<u8>,
    first: MigrationRun,
    second: MigrationRun,
)
    requires
        roots_apart(config_root, data_root),
        is_migration(paths_below(config_root, data_root), first),
        first.report.problems.len() == 0,
        is_migration(paths_below(config_root, data_root), second),
        meanwhile(paths_below(config_root, data_root), false, first.end, second.start),
    ensures
        second.report.migrated.len() == 0,
        keeps(second.start, second.end),
        all_inspected(second) ==> second.report == no_report() && second.end == second.start,
{
    let p = paths_below(config_root, data_root);
    law_a_clean_migration_settles_both_files(config_root, data_root, first);
    law_a_migration_only_adds(config_root, data_root, second);
    lemma_files_apart(config_root, data_root);
    lemma_up_to_lock(p, second);
    lemma_kept_at(first.end, second.start, p.config_file);
    lemma_kept_at(first.end, second.start, p.ui_state_file);
    assert(settled(config_job(p), second.start));
    assert(settled(ui_state_job(p), second.start));
    if ran_files(p, second) {
        let (c, u) = (second.config, second.ui_state);
        lemma_kept_at(second.start, second.with_lock, p.config_file);
        lemma_kept_at(second.with_lock, c.disks[0], p.config_file);
        lemma_file_run(p, config_job(p), second.alone, c, c.steps.len() - 1);
        lemma_report_of_files(p, second);
        lemma_kept_at(second.start, second.with_lock, p.ui_state_file);
        lemma_kept_at(second.with_lock, c.disks[0], p.ui_state_file);
        lemma_kept_at(c.disks[0], c.disks.last(), p.ui_state_file);
        lemma_kept_at(c.disks.last(), u.disks[0], p.ui_state_file);
        lemma_settled_run_spares_former(p, config_job(p), second.alone, c, c.steps.len() - 1);
        lemma_file_run(p, ui_state_job(p), second.alone, u, u.steps.len() - 1);
    }
}

proof fn lemma_settled_run_spares_former(
    p: PathsModel,
    job: FileJobModel,
    alone: bool,
    run: FileRun,
    i: int,
)
    requires
        is_file_run(p, job, alone, run),
        apart(p, job.canonical),
        job.legacy == p.legacy_config_file || job.legacy == p.legacy_ui_state_file,
        settled(job, run.disks[0]),
        0 <= i < run.steps.len(),
    ensures
        same_former(p, run.disks[0], run.disks[i]),
    decreases i,
{
    if i > 0 {
        lemma_settled_run_spares_former(p, job, alone, run, i - 1);
        lemma_file_run(p, job, alone, run, i - 1);
        assert(file_does(
            job,
            run.disks[i - 1],
            run.steps[i - 1],
            run.events[i - 1],
            run.done[i - 1],
        ));
        assert(meanwhile(p, alone, run.done[i - 1], run.disks[i]));
    }
}

/// Whether a file may have to be taken over: never where the current one is
/// there, nor where neither is, and in every other case.
pub proof fn law_a_present_file_is_never_taken_over(canonical: ProbeModel, legacy: ProbeModel)
    ensures
        canonical is Present ==> !may_migrate(canonical, legacy),
        canonical is Missing && legacy is Missing ==> !may_migrate(canonical, legacy),
        canonical is Missing && legacy is Present ==> may_migrate(canonical, legacy),
        canonical is Missing && legacy is Failed ==> may_migrate(canonical, legacy),
        canonical is Failed ==> may_migrate(canonical, legacy),
{
}

/// The problem that keeps a command from running is the first one that is not
/// about the preferences. Those about the preferences are all noticed, in order.
pub proof fn law_the_first_other_problem_is_fatal(
    a: Seq<ProblemModel>,
    b: Seq<ProblemModel>,
    p: ProblemModel,
)
    requires
        forall|i: int| 0 <= i < a.len() ==> (#[trigger] a[i]).artifact == MigrationArtifact::UiState,
    ensures
        p.artifact != MigrationArtifact::UiState ==> first_fatal(a.push(p) + b) == Some(p.message),
        mild_messages(a).len() == a.len(),
        forall|i: int| 0 <= i < a.len() ==> mild_messages(a)[i] == (#[trigger] a[i]).message,
        p.artifact != MigrationArtifact::UiState ==> mild_messages(a.push(p) + b) == mild_messages(a)
            + mild_messages(b),
    decreases a.len(),
{
    let mild = |x: ProblemModel| x.artifact == MigrationArtifact::UiState;
    let message = |x: ProblemModel| x.message;
    let all = a.push(p) + b;
    lemma_all_mild(a, mild);
    assert(mild_messages(a) =~= a.map_values(message));
    Seq::filter_distributes_over_add(a.push(p), b, mild);
    a.lemma_filter_push(p, mild);
    if p.artifact != MigrationArtifact::UiState {
        assert(mild_messages(all) =~= mild_messages(a) + mild_messages(b));
        if a.len() == 0 {
            assert(all[0] == p);
        } else {
            let rest = a.drop_first();
            assert forall|i: int| 0 <= i < rest.len() implies (#[trigger] rest[i]).artifact
                == MigrationArtifact::UiState by {
                assert(rest[i] == a[i + 1]);
            }
            law_the_first_other_problem_is_fatal(rest, b, p);
            assert(all[0] == a[0]);
            assert(all.drop_first() =~= rest.push(p) + b);
        }
    }
}

proof fn lemma_all_mild(a: Seq<ProblemModel>, mild: spec_fn(ProblemModel) -> bool)
    requires
        forall|i: int| 0 <= i < a.len() ==> mild(#[trigger] a[i]),
    ensures
        a.filter(mild) == a,
    decreases a.len(),
{
    if a.len() == 0 {
        a.lemma_filter_len(mild);
        assert(a.filter(mild) =~= a);
    } else {
        let rest = a.drop_last();
        assert(a =~= rest.push(a.last()));
        assert(mild(a[a.len() - 1]));
        assert forall|i: int| 0 <= i < rest.len() implies mild(#[trigger] rest[i]) by {
            assert(rest[i] == a[i]);
        }
        lemma_all_mild(rest, mild);
        rest.lemma_filter_push(a.last(), mild);
    }
}

/// A file is taken over where every step succeeds: the current one is missing and
/// the former one there, and it can be opened, read and checked. It is left alone
/// where the current one is there, where neither is, or where another launch was
/// first; and each step that fails gives one problem with this file.
pub proof fn law_taking_over_a_file_fails_where_a_step_did(
    job: FileJobModel,
    bytes: Seq<u8>,
    checked: Seq<u8>,
    e: IoFailureModel,
    message: Seq<char>,
)
    ensures
        file_next(job, FileStepModel::InspectCanonical, FileEvent::Canonical(ProbeModel::Present))
            == file_skipped(),
        file_next(job, FileStepModel::InspectCanonical, FileEvent::Canonical(ProbeModel::Missing))
            is InspectLegacy,
        file_next(job, FileStepModel::InspectLegacy, FileEvent::Legacy(ProbeModel::Missing))
            == file_skipped(),
        file_next(job, FileStepModel::InspectLegacy, FileEvent::Legacy(ProbeModel::Present))
            is Open,
        file_next(job, FileStepModel::Open, FileEvent::Opened(Ok(()))) is ReadMetadata,
        file_next(job, FileStepModel::ReadMetadata, FileEvent::Metadata(Ok(()))) is Read,
        file_next(job, FileStepModel::Read, FileEvent::Bytes(Ok(bytes))) == (
        FileStepModel::Validate { bytes }),
        file_next(job, FileStepModel::Validate { bytes }, FileEvent::Validated(Ok(checked))) == (
        FileStepModel::Publish { bytes: checked }),
        file_next(
            job,
            FileStepModel::Publish { bytes },
            FileEvent::Published(Ok(PublishOutcome::Published)),
        ) == (FileStepModel::Finished { result: FileResultModel::Migrated(job.canonical) }),
        file_next(
            job,
            FileStepModel::Publish { bytes },
            FileEvent::Published(Ok(PublishOutcome::CanonicalWon)),
        ) == file_skipped(),
        is_problem_of(
            job,
            file_next(
                job,
                FileStepModel::InspectCanonical,
                FileEvent::Canonical(ProbeModel::Failed(e)),
            ),
            e.message,
        ),
        is_problem_of(
            job,
            file_next(job, FileStepModel::InspectLegacy, FileEvent::Legacy(ProbeModel::Failed(e))),
            e.message,
        ),
        is_problem_of(
            job,
            file_next(job, FileStepModel::Open, FileEvent::Opened(Err(e))),
            e.message,
        ),
        is_problem_of(
            job,
            file_next(job, FileStepModel::ReadMetadata, FileEvent::Metadata(Err(e))),
            e.message,
        ),
        is_problem_of(
            job,
            file_next(job, FileStepModel::Read, FileEvent::Bytes(Err(e))),
            e.message,
        ),
        is_problem_of(
            job,
            file_next(job, FileStepModel::Validate { bytes }, FileEvent::Validated(Err(message))),
            message,
        ),
        is_problem_of(
            job,
            file_next(job, FileStepModel::Publish { bytes }, FileEvent::Published(Err(e))),
            e.message,
        ),
{
    lemma_tail(
        "legacy migration cannot inspect canonical state "@ + lossy_utf8(job.canonical) + ": "@,
        e.message,
    );
    lemma_tail(
        "legacy migration cannot inspect legacy state "@ + lossy_utf8(job.legacy) + ": "@,
        e.message,
    );
    lemma_tail("reading legacy state "@ + lossy_utf8(job.legacy) + ": "@, e.message);
    lemma_tail("reading legacy metadata "@ + lossy_utf8(job.legacy) + ": "@, e.message);
    lemma_tail(
        "legacy state "@ + lossy_utf8(job.legacy) + " is invalid and was not migrated: "@,
        message,
    );
    lemma_tail(
        "migrating legacy state "@ + lossy_utf8(job.legacy) + " to "@ + lossy_utf8(job.canonical)
            + ": "@,
        e.message,
    );
}

/// Whether a step ends with a problem with the file of a job whose message ends
/// in the reason.
pub open spec fn is_problem_of(job: FileJobModel, step: FileStepModel, reason: Seq<char>) -> bool {
    &&& step matches FileStepModel::Finished { result: FileResultModel::Problem(p) }
    &&& p.artifact == job.artifact
    &&& reason.is_suffix_of(p.message)
}

proof fn lemma_tail(head: Seq<char>, tail: Seq<char>)
    ensures
        tail.is_suffix_of(head + tail),
{
    let all = head + tail;
    assert(all.skip(all.len() - tail.len()) =~= tail);
}

/// The two files that can be taken over are the roster and the preferences: each
/// comes from its former place and goes to its current one.
pub proof fn law_each_file_moves_to_its_current_place(p: PathsModel)
    ensures
        config_job(p).legacy == p.legacy_config_file,
        config_job(p).canonical == p.config_file,
        config_job(p).artifact == MigrationArtifact::Config,
        ui_state_job(p).legacy == p.legacy_ui_state_file,
        ui_state_job(p).canonical == p.ui_state_file,
        ui_state_job(p).artifact == MigrationArtifact::UiState,
{
}

/// A migration starts only where a file may have to be taken over. It reports
/// what both files came to, the roster first: a file that was taken over or a
/// problem each, and nothing for one that was left alone. What fails before that
/// is one problem that keeps a command from running.
pub proof fn law_a_migration_reports_what_each_file_came_to(
    p: PathsModel,
    dir: Seq<u8>,
    config: FileResultModel,
    ui_state: FileResultModel,
    e: IoFailureModel,
)
    ensures
        migration_start(p, false, false) == (MigrationStepModel::Done { report: no_report() }),
        migration_start(p, true, false) is CreateRoot,
        migration_start(p, false, true) is CreateRoot,
        migration_next(
            p,
            MigrationStepModel::CreateRoot { dir },
            MigrationEvent::RootCreated(Ok(())),
        ) == (MigrationStepModel::OpenLock { file: p.migration_lock_file }),
        migration_next(
            p,
            MigrationStepModel::OpenLock { file: dir },
            MigrationEvent::LockOpened(Ok(())),
        ) is Lock,
        migration_next(p, MigrationStepModel::Lock, MigrationEvent::Locked(Ok(()))) is MigrateFiles,
        ({
            let end = migration_next(
                p,
                MigrationStepModel::MigrateFiles,
                MigrationEvent::FilesMigrated { config, ui_state },
            );
            let report = end->Done_report;
            &&& end is Done
            &&& report.migrated == results_migrated(config) + results_migrated(ui_state)
            &&& report.problems == results_problems(config) + results_problems(ui_state)
        }),
        ends_fatally(
            migration_next(
                p,
                MigrationStepModel::CreateRoot { dir },
                MigrationEvent::RootCreated(Err(e)),
            ),
            e.message,
        ),
        ends_fatally(
            migration_next(
                p,
                MigrationStepModel::OpenLock { file: dir },
                MigrationEvent::LockOpened(Err(e)),
            ),
            e.message,
        ),
        ends_fatally(
            migration_next(p, MigrationStepModel::Lock, MigrationEvent::Locked(Err(e))),
            e.message,
        ),
{
    let end = migration_next(
        p,
        MigrationStepModel::MigrateFiles,
        MigrationEvent::FilesMigrated { config, ui_state },
    );
    let report = end->Done_report;
    assert(report.migrated =~= results_migrated(config) + results_migrated(ui_state));
    assert(report.problems =~= results_problems(config) + results_problems(ui_state));
    lemma_tail("legacy migration cannot create data root "@ + lossy_utf8(dir) + ": "@, e.message);
    lemma_tail(
        "legacy migration cannot open lock "@ + lossy_utf8(p.migration_lock_file) + ": "@,
        e.message,
    );
    lemma_tail(
        "legacy migration cannot lock "@ + lossy_utf8(p.migration_lock_file) + ": "@,
        e.message,
    );
}

/// The file that was taken over, if one was.
pub open spec fn results_migrated(result: FileResultModel) -> Seq<Seq<u8>> {
    match result {
        FileResultModel::Migrated(path) => seq![path],
        _ => seq![],
    }
}

/// The problem with a file, if there was one.
pub open spec fn results_problems(result: FileResultModel) -> Seq<ProblemModel> {
    match result {
        FileResultModel::Problem(p) => seq![p],
        _ => seq![],
    }
}

/// Whether a migration ends with nothing taken over and a problem that keeps a
/// command from running and ends in the reason.
pub open spec fn ends_fatally(step: MigrationStepModel, reason: Seq<char>) -> bool {
    &&& step matches MigrationStepModel::Done { report }
    &&& report.migrated.len() == 0
    &&& report.problems.len() == 1
    &&& report.problems[0].artifact != MigrationArtifact::UiState
    &&& reason.is_suffix_of(report.problems[0].message)
}

/// Which paths of a roster depend on its place: not the absolute ones, not the
/// home directory nor what lies in it, and every other single name.
pub proof fn law_home_and_absolute_paths_depend_on_no_place(name: Seq<u8>, path: Seq<u8>)
    requires
        plain_name(name),
    ensures
        rooted(path) ==> !depends_on_place(path),
        depends_on_place(name) <==> name != seq![TILDE],
        !depends_on_place(joined(seq![TILDE], name)),
{
    let none = Seq::<u8>::empty();
    let home = seq![TILDE];
    assert(!home.contains(SLASH)) by {
        if home.contains(SLASH) {
            let i = choose|i: int| 0 <= i < home.len() && home[i] == SLASH;
            assert(home[i] == TILDE);
        }
    }
    assert(home != seq![DOT]) by {
        assert(home[0] == TILDE);
    }
    assert(plain_name(home));
    law_join_adds_a_component(none, name);
    law_join_adds_a_component(none, home);
    law_join_adds_a_component(home, name);
    assert(!rooted(name)) by {
        if rooted(name) {
            assert(name.contains(name[0]));
        }
    }
    assert(joined(none, name) =~= name);
    assert(joined(none, home) =~= home);
    assert(components(none) =~= seq![]);
    assert(components(name) =~= seq![name]);
    assert(components(home) =~= seq![home]);
    assert(components(joined(home, name))[0] == home);
}

/// A roster keeps its meaning when its file moves: a path that depends on the
/// place is replaced by one that is absolute, where the former directory is, and
/// so names the same place wherever the roster file lies.
pub proof fn law_rebased_paths_keep_their_meaning(
    dir: Seq<u8>,
    path: Seq<u8>,
    elsewhere: PathsModel,
)
    requires
        rooted(dir),
        depends_on_place(path),
    ensures
        resolved_roster_path(elsewhere, joined(dir, path)) == joined(dir, path),
        !depends_on_place(joined(dir, path)),
{
    law_an_absolute_path_replaces_its_base(dir, path);
}

/// Each path of a roster is looked at by itself: one that depends on the place is
/// replaced where it stands by what it means in the former directory, and any
/// other gets no replacement. One whose new path is no text spoils them all.
pub proof fn law_each_dependent_path_is_replaced(
    dir: Seq<u8>,
    a: Seq<SpannedModel>,
    b: Seq<SpannedModel>,
    one: SpannedModel,
)
    ensures
        rebased(dir, a) is Some && rebased(dir, b) is Some ==> rebased(dir, a + b) == Some(
            rebased(dir, a)->Some_0 + rebased(dir, b)->Some_0,
        ),
        rebased(dir, a) is None || rebased(dir, b) is None ==> rebased(dir, a + b) is None,
        ({
            let path = encode_utf8(one.path);
            let moved = joined(dir, path);
            let r = rebased(dir, seq![one]);
            &&& !depends_on_place(path) ==> r == Some(Seq::<ReplacementModel>::empty())
            &&& depends_on_place(path) && !valid_utf8(moved) ==> r is None
            &&& depends_on_place(path) && valid_utf8(moved) ==> r == Some(
                seq![
                    ReplacementModel {
                        start: one.start,
                        end: one.end,
                        text: toml_string_value(decode_utf8(moved)),
                    },
                ],
            )
        }),
    decreases b.len(),
{
    let single = seq![one];
    assert(single.drop_last() =~= Seq::<SpannedModel>::empty());
    reveal_with_fuel(rebased, 2);
    let path = encode_utf8(one.path);
    let moved = joined(dir, path);
    if depends_on_place(path) && valid_utf8(moved) {
        assert((rebased(dir, single)->Some_0) =~= seq![
            ReplacementModel {
                start: one.start,
                end: one.end,
                text: toml_string_value(decode_utf8(moved)),
            },
        ]);
    }
    if b.len() == 0 {
        assert(a + b =~= a);
        if rebased(dir, a) is Some {
            assert(rebased(dir, a)->Some_0 + rebased(dir, b)->Some_0 =~= rebased(dir, a)->Some_0);
        }
    } else {
        law_each_dependent_path_is_replaced(dir, a, b.drop_last(), one);
        assert((a + b).drop_last() =~= a + b.drop_last());
        assert((a + b).last() == b.last());
        if rebased(dir, a) is Some && rebased(dir, b) is Some {
            assert((rebased(dir, a + b)->Some_0) =~= rebased(dir, a)->Some_0
                + rebased(dir, b)->Some_0);
        }
    }
}

/// Putting replacements in changes only what they stand for: what is before the
/// first, between two, and behind the last stays byte for byte.
pub proof fn law_only_replaced_bytes_change(
    text: Seq<u8>,
    r: ReplacementModel,
    rest: Seq<ReplacementModel>,
    from: int,
)
    requires
        reps_fit(seq![r] + rest, from, text.len() as int),
        0 <= from,
    ensures
        ({
            let all = spliced(text, seq![r] + rest, from);
            let new = encode_utf8(r.text);
            let k = r.start - from;
            &&& all.take(k) == text.subrange(from, r.start)
            &&& all.subrange(k, k + new.len()) == new
            &&& all.skip(k + new.len()) == spliced(text, rest, r.end)
        }),
        spliced(text, seq![], from) == text.skip(from),
{
    let reps = seq![r] + rest;
    assert(reps[0] == r);
    assert(reps.drop_first() =~= rest);
    let all = spliced(text, reps, from);
    let new = encode_utf8(r.text);
    let k = r.start - from;
    assert(all.take(k) =~= text.subrange(from, r.start));
    assert(all.subrange(k, k + new.len()) =~= new);
    assert(all.skip(k + new.len()) =~= spliced(text, rest, r.end));
}

/// A file is never put in place through the same sibling twice: another process
/// or another count means another file.
pub proof fn law_migration_files_are_distinct(
    parent: Seq<u8>,
    name: Seq<char>,
    p: nat,
    c: nat,
    q: nat,
    d: nat,
)
    requires
        temp_in(parent, name, p, c) == temp_in(parent, name, q, d),
    ensures
        p == q,
        c == d,
{
    let head = "."@ + name + ".hank-migrate."@;
    let a = head + decimal(p) + "."@ + decimal(c) + ".tmp"@;
    let b = head + decimal(q) + "."@ + decimal(d) + ".tmp"@;
    reveal_strlit(".");
    lemma_same_joined_name(parent, a, b);
    lemma_same_numbers(head, p, c, q, d);
}

/// What is said of a file to take over, of a problem with it and of a path in it
/// is what they hold, each part in its own place.
pub proof fn law_files_and_problems_are_told_as_they_are(
    job: FileJob,
    problem: MigrationProblem,
    path: SpannedPath,
    new: Replacement,
)
    ensures
        job@.legacy == job.legacy@,
        job@.canonical == job.canonical@,
        job@.artifact == job.artifact,
        problem@.artifact == problem.artifact,
        problem@.message == problem.message@,
        path@.path == path.path@,
        path@.start == path.start,
        path@.end == path.end,
        new@.start == new.start,
        new@.end == new.end,
        new@.text == new.text@,
{
}

} // verus!
