//! The life of the hub: create it on the first run, register the roster's
//! repositories with it on every run, and delete it only where that is safe.
//!
//! Reconciling alternates outside operations with decisions. This module makes
//! the decisions; the caller performs each operation and reports back.
use vstd::prelude::*;
use vstd::string::*;
use vstd::utf8::*;
use crate::bd::error::{bd_error_text, bd_result, BdError, BdErrorModel};
use crate::config::{
    lemma_ascii_name, lemma_own_names, paths_below, Config, Paths, PathsModel,
};
use crate::io::{io_result, IoFailure, IoFailureModel, IoKind};
use crate::path::{
    components, contains_path, holds_path, joined, law_join_adds_a_component,
    lossy_utf8, paths_view, plain_name, rooted, same_bytes, strictly_within, FsPath, SLASH,
};
use crate::text::texts;

verus! {

/// The prefix of the hub workspace.
pub const HUB_PREFIX: &'static str = "hub";

/// The hub is ready, but these things about the roster deserve notice.
#[derive(Debug, Clone, PartialEq, Eq)]
pub struct HubStatus {
    pub warnings: Vec<String>,
}

impl Default for HubStatus {
    fn default() -> (res: HubStatus)
        ensures
            res.warnings@.len() == 0,
    {
        HubStatus { warnings: Vec::new() }
    }
}

/// A fatal failure of the hub.
#[derive(Debug, PartialEq, Eq)]
pub enum HubError {
    /// A `bd` call failed.
    Bd(BdError),
    /// A file-system operation failed.
    Io { path: FsPath, detail: String },
    /// The hub's configuration could not be parsed.
    Config { path: FsPath, detail: String },
    /// What was to be deleted does not lie inside the data directory.
    UnsafeResetPath { target: FsPath, data_dir: FsPath },
}

/// What a [`HubError`] holds.
pub enum HubErrorModel {
    Bd(BdErrorModel),
    Io { path: Seq<u8>, detail: Seq<char> },
    Config { path: Seq<u8>, detail: Seq<char> },
    UnsafeResetPath { target: Seq<u8>, data_dir: Seq<u8> },
}

impl View for HubError {
    type V = HubErrorModel;

    open spec fn view(&self) -> HubErrorModel {
        match self {
            HubError::Bd(e) => HubErrorModel::Bd(e@),
            HubError::Io { path, detail } => HubErrorModel::Io { path: path@, detail: detail@ },
            HubError::Config { path, detail } => HubErrorModel::Config {
                path: path@,
                detail: detail@,
            },
            HubError::UnsafeResetPath { target, data_dir } => HubErrorModel::UnsafeResetPath {
                target: target@,
                data_dir: data_dir@,
            },
        }
    }
}

/// A fatal failure of the hub in words.
pub open spec fn hub_error_text(e: HubErrorModel) -> Seq<char> {
    match e {
        HubErrorModel::Bd(source) => bd_error_text(source),
        HubErrorModel::Io { path, detail } => "filesystem error at "@ + lossy_utf8(path) + ": "@
            + detail,
        HubErrorModel::Config { path, detail } => "parsing hub config "@ + lossy_utf8(path)
            + ": "@ + detail,
        HubErrorModel::UnsafeResetPath { target, data_dir } => "refusing to reset "@ + lossy_utf8(
            target,
        ) + ": not inside data dir "@ + lossy_utf8(data_dir),
    }
}

impl HubError {
    /// The error in words.
    pub fn message(&self) -> (res: String)
        ensures
            res@ == hub_error_text(self@),
    {
        match self {
            HubError::Bd(source) => source.message(),
            HubError::Io { path, detail } => {
                let mut out = String::from_str("filesystem error at ");
                out.append(path.display().as_str());
                out.append(": ");
                out.append(detail.as_str());
                out
            },
            HubError::Config { path, detail } => {
                let mut out = String::from_str("parsing hub config ");
                out.append(path.display().as_str());
                out.append(": ");
                out.append(detail.as_str());
                out
            },
            HubError::UnsafeResetPath { target, data_dir } => {
                let mut out = String::from_str("refusing to reset ");
                out.append(target.display().as_str());
                out.append(": not inside data dir ");
                out.append(data_dir.display().as_str());
                out
            },
        }
    }
}

// ---------------------------------------------------------------------------
// Places
// ---------------------------------------------------------------------------

/// The hub workspace, inside the data directory.
pub open spec fn hub_path(paths: PathsModel) -> Seq<u8> {
    joined(paths.data_dir, encode_utf8("hub"@))
}

/// The directory whose presence shows that the hub is initialized.
pub open spec fn hub_beads_path(hub: Seq<u8>) -> Seq<u8> {
    joined(hub, encode_utf8(".beads"@))
}

/// The hub's configuration.
pub open spec fn hub_config_path(hub: Seq<u8>) -> Seq<u8> {
    joined(hub_beads_path(hub), encode_utf8("config.yaml"@))
}

/// The hub workspace, inside the data directory.
pub fn hub_dir(paths: &Paths) -> (res: FsPath)
    ensures
        res@ == hub_path(paths@),
{
    paths.data_dir().join_text("hub")
}

/// The directory whose presence shows that the hub is initialized.
pub fn hub_beads_dir(hub: &FsPath) -> (res: FsPath)
    ensures
        res@ == hub_beads_path(hub@),
{
    hub.join_text(".beads")
}

/// The hub's configuration.
pub fn hub_config_file(hub: &FsPath) -> (res: FsPath)
    ensures
        res@ == hub_config_path(hub@),
{
    hub_beads_dir(hub).join_text("config.yaml")
}

/// A path as it is, where absolute, and otherwise below `base`.
pub fn resolve_against(base: &FsPath, p: &FsPath) -> (res: FsPath)
    ensures
        res@ == if rooted(p@) {
            p@
        } else {
            joined(base@, p@)
        },
{
    if p.is_absolute() {
        p.clone()
    } else {
        base.join(p)
    }
}

/// Refuses any target that does not lie strictly below `parent`, component by
/// component.
pub fn ensure_within(parent: &FsPath, target: &FsPath) -> (res: Result<(), HubError>)
    ensures
        res is Ok <==> strictly_within(parent@, target@),
        res matches Err(e) ==> e@ == (HubErrorModel::UnsafeResetPath {
            target: target@,
            data_dir: parent@,
        }),
{
    if target.is_strictly_within(parent) {
        Ok(())
    } else {
        Err(HubError::UnsafeResetPath { target: target.clone(), data_dir: parent.clone() })
    }
}

/// The directory that a reset deletes. It is the hub, and it always lies
/// strictly inside the data directory.
pub fn reset(paths: &Paths) -> (res: Result<FsPath, HubError>)
    ensures
        res matches Ok(target) && target@ == hub_path(paths@) && strictly_within(
            paths@.data_dir,
            target@,
        ),
{
    proof {
        lemma_own_names();
        law_join_adds_a_component(paths@.data_dir, encode_utf8("hub"@));
    }
    let hub = hub_dir(paths);
    match ensure_within(paths.data_dir(), &hub) {
        Ok(()) => Ok(hub),
        Err(e) => Err(e),
    }
}

/// What a reset deletes: the hub with all that is in it, and the cached
/// snapshot, which shows what the hub held.
pub fn reset_targets(paths: &Paths) -> (res: (FsPath, FsPath))
    ensures
        res.0@ == hub_path(paths@),
        res.1@ == paths@.cache_file,
{
    (hub_dir(paths), paths.cache_file().clone())
}

/// Whether a file is neither at a path nor anywhere below it.
pub open spec fn outside(path: Seq<u8>, file: Seq<u8>) -> bool {
    !components(path).is_prefix_of(components(file))
}

/// Whether a file is neither of the two things that a reset deletes, nor in
/// one of them.
pub open spec fn spared(p: PathsModel, file: Seq<u8>) -> bool {
    outside(hub_path(p), file) && outside(p.cache_file, file)
}

/// A reset deletes neither the preferences nor, unless the root for
/// configuration was put where a reset deletes, the roster; under the former
/// name of the application no more than under the current one.
pub proof fn law_a_reset_spares_the_users_files(config_root: Seq<u8>, data_root: Seq<u8>)
    ensures
        ({
            let p = paths_below(config_root, data_root);
            &&& spared(p, p.ui_state_file)
            &&& spared(p, p.legacy_ui_state_file)
            &&& spared(p, config_root) ==> spared(p, p.config_file) && spared(
                p,
                p.legacy_config_file,
            )
        }),
{
    let p = paths_below(config_root, data_root);
    lemma_own_names();
    law_join_adds_a_component(data_root, encode_utf8("hank"@));
    law_join_adds_a_component(p.data_dir, encode_utf8("hub"@));
    law_join_adds_a_component(p.data_dir, encode_utf8("snapshot_cache.json"@));
    assert(outside(hub_path(p), data_root));
    assert(outside(p.cache_file, data_root));
    lemma_users_files_outside(p, hub_path(p), config_root, data_root);
    lemma_users_files_outside(p, p.cache_file, config_root, data_root);
}

proof fn lemma_users_files_outside(
    p: PathsModel,
    target: Seq<u8>,
    config_root: Seq<u8>,
    data_root: Seq<u8>,
)
    requires
        p == paths_below(config_root, data_root),
        components(target).len() > 0,
        components(target).last() == encode_utf8("hub"@) || components(target).last()
            == encode_utf8("snapshot_cache.json"@),
        outside(target, data_root),
    ensures
        outside(target, p.ui_state_file),
        outside(target, p.legacy_ui_state_file),
        outside(target, config_root) ==> outside(target, p.config_file) && outside(
            target,
            p.legacy_config_file,
        ),
{
    let (now, before) = (encode_utf8("hank"@), encode_utf8("federated-beads"@));
    lemma_own_names();
    lemma_file_outside(target, data_root, now, encode_utf8("ui_state.json"@));
    lemma_file_outside(target, data_root, before, encode_utf8("ui_state.json"@));
    if outside(target, config_root) {
        lemma_file_outside(target, config_root, now, encode_utf8("config.toml"@));
        lemma_file_outside(target, config_root, before, encode_utf8("config.toml"@));
    }
}

/// A file below a root lies outside a path that the root lies outside of, unless
/// the path ends with one of the two names that lead to the file.
pub proof fn lemma_file_outside(path: Seq<u8>, root: Seq<u8>, dir: Seq<u8>, file: Seq<u8>)
    requires
        plain_name(dir),
        plain_name(file),
        components(path).len() > 0,
        components(path).last() != dir,
        components(path).last() != file,
        outside(path, root),
    ensures
        outside(path, joined(joined(root, dir), file)),
{
    law_join_adds_a_component(root, dir);
    law_join_adds_a_component(joined(root, dir), file);
    let h = components(path);
    let r = components(root);
    let all = r.push(dir).push(file);
    if h.is_prefix_of(all) {
        assert(h =~= all.subrange(0, h.len() as int));
        assert(h.last() == all[h.len() - 1]);
        if h.len() <= r.len() {
            assert(h =~= r.subrange(0, h.len() as int));
        }
    }
}

// ---------------------------------------------------------------------------
// The hub's own roster
// ---------------------------------------------------------------------------

/// What reading the hub's configuration tells: its text, none where there is no
/// such file, and a failure otherwise.
pub open spec fn config_found(hub: Seq<u8>, text: Result<Seq<char>, IoFailureModel>) -> Result<
    Option<Seq<char>>,
    HubErrorModel,
> {
    match text {
        Ok(t) => Ok(Some(t)),
        Err(e) => if e.kind == IoKind::NotFound {
            Ok(None)
        } else {
            Err(HubErrorModel::Io { path: hub_config_path(hub), detail: e.message })
        },
    }
}

/// A configuration that cannot be read is never taken for one that is missing,
/// and what is read is the file's own text.
pub proof fn law_only_a_missing_configuration_lists_nothing(
    hub: Seq<u8>,
    text: Result<Seq<char>, IoFailureModel>,
)
    ensures
        config_found(hub, text) == Ok::<Option<Seq<char>>, HubErrorModel>(None) <==> (
        text matches Err(e) && e.kind == IoKind::NotFound),
        text matches Ok(t) ==> config_found(hub, text) == Ok::<Option<Seq<char>>, HubErrorModel>(
            Some(t),
        ),
        config_found(hub, text) matches Err(error) ==> {
            &&& text is Err
            &&& error == (HubErrorModel::Io {
                path: hub_config_path(hub),
                detail: (text->Err_0).message,
            })
        },
{
}

/// The hub's configuration as read: none where there is no such file.
pub fn hub_config_read(hub: &FsPath, text: Result<String, IoFailure>) -> (res: Result<
    Option<String>,
    HubError,
>)
    ensures
        match text {
            Ok(t) => res matches Ok(Some(s)) && s@ == t@,
            Err(e) => if e.kind == IoKind::NotFound {
                res matches Ok(None)
            } else {
                res matches Err(error) && error@ == (HubErrorModel::Io {
                    path: hub_config_path(hub@),
                    detail: e.message@,
                })
            },
        },
        (match res {
            Ok(Some(s)) => Ok(Some(s@)),
            Ok(None) => Ok(None),
            Err(error) => Err(error@),
        }) == config_found(
            hub@,
            match text {
                Ok(t) => Ok(t@),
                Err(e) => Err(e@),
            },
        ),
{
    match text {
        Ok(t) => Ok(Some(t)),
        Err(e) => if e.kind == IoKind::NotFound {
            Ok(None)
        } else {
            Err(HubError::Io { path: hub_config_file(hub), detail: e.message })
        },
    }
}

/// The paths that texts stand for.
pub open spec fn texts_as_paths(v: Seq<Seq<char>>) -> Seq<Seq<u8>> {
    v.map_values(|s: Seq<char>| encode_utf8(s))
}

/// The repositories that the hub's parsed configuration lists.
pub fn read_hub_roster(hub: &FsPath, parsed: Result<Vec<String>, String>) -> (res: Result<
    Vec<FsPath>,
    HubError,
>)
    ensures
        match parsed {
            Ok(additional) => res matches Ok(v) && paths_view(v@) == texts_as_paths(
                texts(additional@),
            ),
            Err(detail) => res matches Err(error) && error@ == (HubErrorModel::Config {
                path: hub_config_path(hub@),
                detail: detail@,
            }),
        },
{
    match parsed {
        Ok(additional) => {
            let mut out: Vec<FsPath> = Vec::new();
            let mut i: usize = 0;
            while i < additional.len()
                invariant
                    i <= additional@.len(),
                    out@.len() == i,
                    forall|k: int|
                        0 <= k < i ==> #[trigger] out@[k]@ == encode_utf8(additional@[k]@),
                decreases additional@.len() - i,
            {
                out.push(FsPath::new(additional[i].as_str()));
                i += 1;
            }
            assert(paths_view(out@) =~= texts_as_paths(texts(additional@)));
            Ok(out)
        },
        Err(detail) => Err(HubError::Config { path: hub_config_file(hub), detail }),
    }
}

// ---------------------------------------------------------------------------
// Reconciling
// ---------------------------------------------------------------------------

/// How far reconciling the roster with the hub has come.
#[derive(Debug, PartialEq, Eq)]
pub struct Reconcile {
    pub hub: FsPath,
    pub roster: Vec<FsPath>,
    pub next: usize,
    pub known: Vec<FsPath>,
    pub warnings: Vec<String>,
}

/// What a [`Reconcile`] holds.
pub struct ReconcileModel {
    pub hub: Seq<u8>,
    pub roster: Seq<Seq<u8>>,
    pub next: int,
    pub known: Seq<Seq<u8>>,
    pub warnings: Seq<Seq<char>>,
}

impl View for Reconcile {
    type V = ReconcileModel;

    open spec fn view(&self) -> ReconcileModel {
        ReconcileModel {
            hub: self.hub@,
            roster: paths_view(self.roster@),
            next: self.next as int,
            known: paths_view(self.known@),
            warnings: texts(self.warnings@),
        }
    }
}

/// What to do next for the hub, or what came of it.
#[derive(Debug, PartialEq, Eq)]
pub enum HubStep {
    /// Create the hub directory.
    CreateDir { hub: FsPath },
    /// Find out whether the hub is initialized.
    CheckInitialized { hub: FsPath },
    /// Let `bd` initialize the hub.
    Init { hub: FsPath },
    /// Read the repositories that the hub lists.
    ReadRoster { hub: FsPath },
    /// Canonicalize these paths where they exist.
    Normalize { hub: FsPath, stored: Vec<FsPath> },
    /// Find out whether the next entry of the roster exists, and its canonical
    /// path.
    Probe { run: Reconcile },
    /// Let `bd` register this repository with the hub.
    Add { run: Reconcile, repo: FsPath },
    /// The hub is ready.
    Done { status: HubStatus },
    /// The hub is not ready.
    Failed { error: HubError },
}

/// What a [`HubStep`] holds.
pub enum HubStepModel {
    CreateDir { hub: Seq<u8> },
    CheckInitialized { hub: Seq<u8> },
    Init { hub: Seq<u8> },
    ReadRoster { hub: Seq<u8> },
    Normalize { hub: Seq<u8>, stored: Seq<Seq<u8>> },
    Probe { run: ReconcileModel },
    Add { run: ReconcileModel, repo: Seq<u8> },
    Done { warnings: Seq<Seq<char>> },
    Failed { error: HubErrorModel },
}

impl View for HubStep {
    type V = HubStepModel;

    open spec fn view(&self) -> HubStepModel {
        match self {
            HubStep::CreateDir { hub } => HubStepModel::CreateDir { hub: hub@ },
            HubStep::CheckInitialized { hub } => HubStepModel::CheckInitialized { hub: hub@ },
            HubStep::Init { hub } => HubStepModel::Init { hub: hub@ },
            HubStep::ReadRoster { hub } => HubStepModel::ReadRoster { hub: hub@ },
            HubStep::Normalize { hub, stored } => HubStepModel::Normalize {
                hub: hub@,
                stored: paths_view(stored@),
            },
            HubStep::Probe { run } => HubStepModel::Probe { run: run@ },
            HubStep::Add { run, repo } => HubStepModel::Add { run: run@, repo: repo@ },
            HubStep::Done { status } => HubStepModel::Done { warnings: texts(status.warnings@) },
            HubStep::Failed { error } => HubStepModel::Failed { error: error@ },
        }
    }
}

/// The warning about an entry of the roster that does not exist.
pub open spec fn missing_text(path: Seq<u8>) -> Seq<char> {
    "roster path does not exist: "@ + lossy_utf8(path)
}

/// The step for the next entry of the roster, or the end.
pub open spec fn hub_advance(run: ReconcileModel) -> HubStepModel {
    if run.next < run.roster.len() {
        HubStepModel::Probe { run }
    } else {
        HubStepModel::Done { warnings: run.warnings }
    }
}

/// After creating the hub directory.
pub open spec fn after_dir(hub: Seq<u8>, result: Result<(), IoFailureModel>) -> HubStepModel {
    match result {
        Ok(()) => HubStepModel::CheckInitialized { hub },
        Err(e) => HubStepModel::Failed {
            error: HubErrorModel::Io { path: hub, detail: e.message },
        },
    }
}

/// After finding out whether the hub is initialized.
pub open spec fn after_check(hub: Seq<u8>, initialized: bool) -> HubStepModel {
    if initialized {
        HubStepModel::ReadRoster { hub }
    } else {
        HubStepModel::Init { hub }
    }
}

/// After `bd` initialized the hub.
pub open spec fn after_init(hub: Seq<u8>, result: Result<(), BdErrorModel>) -> HubStepModel {
    match result {
        Ok(()) => HubStepModel::ReadRoster { hub },
        Err(e) => HubStepModel::Failed { error: HubErrorModel::Bd(e) },
    }
}

/// After looking for the next entry of the roster: one that does not exist is
/// a warning, one that the hub tracks is done, and any other is added. The hub
/// counts as tracking it from then on.
pub open spec fn after_probe(run: ReconcileModel, found: Option<Seq<u8>>) -> HubStepModel {
    if run.next >= run.roster.len() {
        hub_advance(run)
    } else {
        after_entry(run, found)
    }
}

/// After looking for an entry of the roster.
pub open spec fn after_entry(run: ReconcileModel, found: Option<Seq<u8>>) -> HubStepModel {
    match found {
        None => hub_advance(
            ReconcileModel {
                next: run.next + 1,
                warnings: run.warnings.push(missing_text(run.roster[run.next])),
                ..run
            },
        ),
        Some(repo) => if holds_path(run.known, repo) {
            hub_advance(ReconcileModel { next: run.next + 1, ..run })
        } else {
            HubStepModel::Add {
                run: ReconcileModel {
                    next: run.next + 1,
                    known: run.known.push(repo),
                    ..run
                },
                repo,
            }
        },
    }
}

/// After adding a repository.
pub open spec fn after_add(run: ReconcileModel, result: Result<(), BdErrorModel>) -> HubStepModel {
    match result {
        Ok(()) => hub_advance(run),
        Err(e) => HubStepModel::Failed { error: HubErrorModel::Bd(e) },
    }
}

fn advance(run: Reconcile) -> (res: HubStep)
    ensures
        res@ == hub_advance(run@),
{
    if run.next < run.roster.len() {
        HubStep::Probe { run }
    } else {
        HubStep::Done { status: HubStatus { warnings: run.warnings } }
    }
}

/// Starts to make the hub ready: its directory comes first.
pub fn ensure_hub(paths: &Paths) -> (res: HubStep)
    ensures
        res@ == (HubStepModel::CreateDir { hub: hub_path(paths@) }),
{
    HubStep::CreateDir { hub: hub_dir(paths) }
}

/// After creating the hub directory.
pub fn dir_created(hub: FsPath, result: Result<(), IoFailure>) -> (res: HubStep)
    ensures
        res@ == (match io_result(result) {
            Ok(()) => HubStepModel::CheckInitialized { hub: hub@ },
            Err(e) => HubStepModel::Failed {
                error: HubErrorModel::Io { path: hub@, detail: e.message },
            },
        }),
        res@ == after_dir(hub@, io_result(result)),
{
    match result {
        Ok(()) => HubStep::CheckInitialized { hub },
        Err(e) => HubStep::Failed { error: HubError::Io { path: hub, detail: e.message } },
    }
}

/// After finding out whether the hub is initialized: it is initialized at most
/// once.
pub fn initialized_checked(hub: FsPath, initialized: bool) -> (res: HubStep)
    ensures
        res@ == if initialized {
            HubStepModel::ReadRoster { hub: hub@ }
        } else {
            HubStepModel::Init { hub: hub@ }
        },
        res@ == after_check(hub@, initialized),
{
    if initialized {
        HubStep::ReadRoster { hub }
    } else {
        HubStep::Init { hub }
    }
}

/// After `bd` initialized the hub.
pub fn initialized(hub: FsPath, result: Result<(), BdError>) -> (res: HubStep)
    ensures
        res@ == (match bd_result(result) {
            Ok(()) => HubStepModel::ReadRoster { hub: hub@ },
            Err(e) => HubStepModel::Failed { error: HubErrorModel::Bd(e) },
        }),
        res@ == after_init(hub@, bd_result(result)),
{
    match result {
        Ok(()) => HubStep::ReadRoster { hub },
        Err(e) => HubStep::Failed { error: HubError::Bd(e) },
    }
}

/// Stored paths below the hub where they are relative.
pub open spec fn stored_paths(hub: Seq<u8>, stored: Seq<Seq<u8>>) -> Seq<Seq<u8>> {
    stored.map_values(
        |p: Seq<u8>|
            if rooted(p) {
                p
            } else {
                joined(hub, p)
            },
    )
}

/// After reading the repositories that the hub lists: a relative one is taken
/// from the hub.
pub fn roster_read(hub: FsPath, roster: Result<Vec<FsPath>, HubError>) -> (res: HubStep)
    ensures
        res@ == (match roster {
            Ok(stored) => HubStepModel::Normalize {
                hub: hub@,
                stored: stored_paths(hub@, paths_view(stored@)),
            },
            Err(e) => HubStepModel::Failed { error: e@ },
        }),
{
    match roster {
        Ok(stored) => {
            let mut out: Vec<FsPath> = Vec::new();
            let mut i: usize = 0;
            while i < stored.len()
                invariant
                    i <= stored@.len(),
                    out@.len() == i,
                    forall|k: int|
                        0 <= k < i ==> #[trigger] out@[k]@ == stored_paths(
                            hub@,
                            paths_view(stored@),
                        )[k],
                decreases stored@.len() - i,
            {
                out.push(resolve_against(&hub, &stored[i]));
                i += 1;
            }
            assert(paths_view(out@) =~= stored_paths(hub@, paths_view(stored@)));
            HubStep::Normalize { hub, stored: out }
        },
        Err(error) => HubStep::Failed { error },
    }
}

/// After canonicalizing what the hub lists: the roster's entries come next, in
/// order.
pub fn normalized(hub: FsPath, known: Vec<FsPath>, roster: &Config) -> (res: HubStep)
    ensures
        res@ == hub_advance(
            ReconcileModel {
                hub: hub@,
                roster: roster@,
                next: 0,
                known: paths_view(known@),
                warnings: seq![],
            },
        ),
{
    let mut entries: Vec<FsPath> = Vec::new();
    let mut i: usize = 0;
    while i < roster.repos.len()
        invariant
            i <= roster.repos@.len(),
            entries@.len() == i,
            forall|k: int| 0 <= k < i ==> #[trigger] entries@[k]@ == roster.repos@[k]@,
        decreases roster.repos@.len() - i,
    {
        entries.push(roster.repos[i].path.clone());
        i += 1;
    }
    assert(paths_view(entries@) =~= roster@);
    let warnings: Vec<String> = Vec::new();
    assert(texts(warnings@) =~= seq![]);
    advance(Reconcile { hub, roster: entries, next: 0, known, warnings })
}

/// What was found at an entry of the roster.
pub open spec fn opt_found(o: Option<FsPath>) -> Option<Seq<u8>> {
    match o {
        Some(p) => Some(p@),
        None => None,
    }
}

/// After looking for the next entry of the roster; `found` is its canonical
/// path where it exists.
pub fn probed(run: Reconcile, found: Option<FsPath>) -> (res: HubStep)
    ensures
        res@ == after_probe(run@, opt_found(found)),
{
    let len: usize = run.roster.len();
    if run.next >= len {
        return advance(run);
    }
    let mut run = run;
    let ghost before = run@;
    match found {
        None => {
            let mut warning = String::from_str("roster path does not exist: ");
            warning.append(run.roster[run.next].display().as_str());
            let ghost shown = warning@;
            run.warnings.push(warning);
            assert(run@.warnings =~= before.warnings.push(shown));
            assert(shown == missing_text(before.roster[before.next]));
            run.next = run.next + 1;
            advance(run)
        },
        Some(repo) => {
            let held = contains_path(&run.known, &repo);
            run.next = run.next + 1;
            if held {
                advance(run)
            } else {
                run.known.push(repo.clone());
                assert(run@.known =~= before.known.push(repo@));
                HubStep::Add { run, repo }
            }
        },
    }
}

/// After `bd` registered a repository with the hub.
pub fn added(run: Reconcile, result: Result<(), BdError>) -> (res: HubStep)
    ensures
        res@ == after_add(run@, bd_result(result)),
{
    match result {
        Ok(()) => advance(run),
        Err(e) => HubStep::Failed { error: HubError::Bd(e) },
    }
}

/// The repositories that a run adds, given what is found at each entry of the
/// roster, where every addition succeeds.
pub open spec fn additions(run: ReconcileModel, found: Seq<Option<Seq<u8>>>) -> Seq<Seq<u8>>
    decreases run.roster.len() - run.next,
{
    if 0 <= run.next < run.roster.len() {
        match after_probe(run, found[run.next]) {
            HubStepModel::Add { run: after, repo } => if after.roster == run.roster && after.next
                == run.next + 1 {
                seq![repo] + additions(after, found)
            } else {
                seq![]
            },
            HubStepModel::Probe { run: after } => if after.roster == run.roster && after.next
                == run.next + 1 {
                additions(after, found)
            } else {
                seq![]
            },
            _ => seq![],
        }
    } else {
        seq![]
    }
}

/// Whether no path of the list names the same place as an earlier one, nor as
/// one of `known`.
pub open spec fn all_new(known: Seq<Seq<u8>>, list: Seq<Seq<u8>>) -> bool {
    forall|i: int| 0 <= i < list.len() ==> !holds_path(known + list.take(i), #[trigger] list[i])
}

proof fn lemma_holds_path_add(a: Seq<Seq<u8>>, b: Seq<Seq<u8>>, p: Seq<u8>)
    ensures
        holds_path(a + b, p) <==> holds_path(a, p) || holds_path(b, p),
{
    if holds_path(a, p) {
        let i = choose|i: int|
            0 <= i < a.len() && components(#[trigger] a[i]) == components(p);
        assert((a + b)[i] == a[i]);
    }
    if holds_path(b, p) {
        let i = choose|i: int|
            0 <= i < b.len() && components(#[trigger] b[i]) == components(p);
        assert((a + b)[a.len() + i] == b[i]);
    }
    if holds_path(a + b, p) {
        let i = choose|i: int|
            0 <= i < (a + b).len() && components(#[trigger] (a + b)[i]) == components(p);
        if i < a.len() {
            assert(a[i] == (a + b)[i]);
        } else {
            assert(b[i - a.len()] == (a + b)[i]);
        }
    }
}

/// Reconciling adds each repository at most once and none that the hub tracks,
/// and it leaves every existing repository of the roster registered.
pub proof fn law_reconciling_tracks_each_repository_once(
    run: ReconcileModel,
    found: Seq<Option<Seq<u8>>>,
)
    requires
        0 <= run.next <= run.roster.len(),
    ensures
        all_new(run.known, additions(run, found)),
        forall|i: int|
            run.next <= i < run.roster.len() ==> (#[trigger] found[i] matches Some(repo)
                ==> holds_path(run.known + additions(run, found), repo)),
    decreases run.roster.len() - run.next,
{
    let adds = additions(run, found);
    if run.next < run.roster.len() {
        let here = found[run.next];
        match here {
            Some(repo) if !holds_path(run.known, repo) => {
                let after = ReconcileModel {
                    next: run.next + 1,
                    known: run.known.push(repo),
                    ..run
                };
                law_reconciling_tracks_each_repository_once(after, found);
                let rest = additions(after, found);
                assert(adds == seq![repo] + rest);
                assert(run.known.push(repo) + rest =~= run.known + adds);
                assert forall|i: int| 0 <= i < adds.len() implies !holds_path(
                    run.known + adds.take(i),
                    #[trigger] adds[i],
                ) by {
                    if i == 0 {
                        assert(run.known + adds.take(0) =~= run.known);
                    } else {
                        assert(adds[i] == rest[i - 1]);
                        assert(run.known + adds.take(i) =~= after.known + rest.take(i - 1));
                    }
                }
                assert(adds[0] == repo);
                assert(holds_path(adds, repo));
                lemma_holds_path_add(run.known, adds, repo);
            },
            _ => {
                let after = match here {
                    None => ReconcileModel {
                        next: run.next + 1,
                        warnings: run.warnings.push(missing_text(run.roster[run.next])),
                        ..run
                    },
                    Some(_) => ReconcileModel { next: run.next + 1, ..run },
                };
                law_reconciling_tracks_each_repository_once(after, found);
                if after.next < after.roster.len() {
                    assert(adds == additions(after, found));
                } else {
                    assert(adds =~= additions(after, found));
                }
                match here {
                    Some(repo) => {
                        lemma_holds_path_add(run.known, adds, repo);
                    },
                    None => {},
                }
            },
        }
    }
}

/// Reconciling once more, with everything that exists registered, adds nothing.
pub proof fn law_reconciling_again_adds_nothing(run: ReconcileModel, found: Seq<Option<Seq<u8>>>)
    requires
        0 <= run.next <= run.roster.len(),
        forall|i: int|
            run.next <= i < run.roster.len() ==> (#[trigger] found[i] matches Some(repo)
                ==> holds_path(run.known, repo)),
    ensures
        additions(run, found) == Seq::<Seq<u8>>::empty(),
    decreases run.roster.len() - run.next,
{
    if run.next < run.roster.len() {
        let here = found[run.next];
        let after = match here {
            None => ReconcileModel {
                next: run.next + 1,
                warnings: run.warnings.push(missing_text(run.roster[run.next])),
                ..run
            },
            Some(_) => ReconcileModel { next: run.next + 1, ..run },
        };
        law_reconciling_again_adds_nothing(after, found);
    }
}

// ---------------------------------------------------------------------------
// What reconciling depends on
// ---------------------------------------------------------------------------

/// Everything that reconciling depends on, as observed at one time: whether
/// the hub is initialized, what it tracks, and what was found at each entry of
/// the roster.
#[derive(Debug, PartialEq, Eq)]
pub struct ReconcileWitness {
    pub initialized: bool,
    pub known: Vec<FsPath>,
    pub entries: Vec<RosterFinding>,
}

/// An entry of the roster, and its canonical path where it exists.
#[derive(Debug, PartialEq, Eq)]
pub struct RosterFinding {
    pub path: FsPath,
    pub found: Option<FsPath>,
}

/// What a [`RosterFinding`] holds.
pub struct FindingModel {
    pub path: Seq<u8>,
    pub found: Option<Seq<u8>>,
}

impl View for RosterFinding {
    type V = FindingModel;

    open spec fn view(&self) -> FindingModel {
        FindingModel { path: self.path@, found: opt_found(self.found) }
    }
}

/// What a list of findings holds.
pub open spec fn findings_view(v: Seq<RosterFinding>) -> Seq<FindingModel> {
    v.map_values(|f: RosterFinding| f@)
}

/// What a [`ReconcileWitness`] holds.
pub struct WitnessModel {
    pub initialized: bool,
    pub known: Seq<Seq<u8>>,
    pub entries: Seq<FindingModel>,
}

impl View for ReconcileWitness {
    type V = WitnessModel;

    open spec fn view(&self) -> WitnessModel {
        WitnessModel {
            initialized: self.initialized,
            known: paths_view(self.known@),
            entries: findings_view(self.entries@),
        }
    }
}

/// Whether the hub is initialized and tracks every repository that was found.
pub open spec fn satisfied(w: WitnessModel) -> bool {
    w.initialized && forall|i: int|
        0 <= i < w.entries.len() ==> ((#[trigger] w.entries[i]).found matches Some(repo)
            ==> holds_path(w.known, repo))
}

/// The warnings about the entries at which nothing was found.
pub open spec fn missing_warnings(entries: Seq<FindingModel>) -> Seq<Seq<char>>
    decreases entries.len(),
{
    if entries.len() == 0 {
        seq![]
    } else {
        let rest = missing_warnings(entries.drop_last());
        match entries.last().found {
            None => rest.push(missing_text(entries.last().path)),
            Some(_) => rest,
        }
    }
}

impl ReconcileWitness {
    /// Whether reconciling has nothing to do.
    pub fn is_satisfied(&self) -> (res: bool)
        ensures
            res == satisfied(self@),
    {
        if !self.initialized {
            return false;
        }
        let mut i: usize = 0;
        while i < self.entries.len()
            invariant
                i <= self.entries@.len(),
                self.initialized,
                forall|k: int|
                    0 <= k < i ==> ((#[trigger] self@.entries[k]).found matches Some(repo)
                        ==> holds_path(self@.known, repo)),
            decreases self.entries@.len() - i,
        {
            assert(self@.entries[i as int] == self.entries@[i as int]@);
            match &self.entries[i].found {
                Some(repo) => {
                    if !contains_path(&self.known, repo) {
                        return false;
                    }
                },
                None => {},
            }
            i += 1;
        }
        true
    }

    /// The warnings about the roster.
    pub fn warnings(&self) -> (res: Vec<String>)
        ensures
            texts(res@) == missing_warnings(self@.entries),
    {
        let ghost all = self@.entries;
        let mut out: Vec<String> = Vec::new();
        let mut i: usize = 0;
        assert(texts(out@) =~= missing_warnings(all.take(0)));
        while i < self.entries.len()
            invariant
                i <= self.entries@.len(),
                all == findings_view(self.entries@),
                texts(out@) == missing_warnings(all.take(i as int)),
            decreases self.entries@.len() - i,
        {
            let ghost before = out@;
            assert(all.take(i + 1).drop_last() =~= all.take(i as int));
            assert(all.take(i + 1).last() == self.entries@[i as int]@);
            match &self.entries[i].found {
                Some(_) => {},
                None => {
                    let mut warning = String::from_str("roster path does not exist: ");
                    warning.append(self.entries[i].path.display().as_str());
                    let ghost shown = warning@;
                    out.push(warning);
                    assert(texts(out@) =~= texts(before).push(shown));
                },
            }
            i += 1;
        }
        assert(all.take(all.len() as int) =~= all);
        out
    }

    /// Whether two witnesses observed the same.
    pub fn same(&self, other: &ReconcileWitness) -> (res: bool)
        ensures
            res == (self@ == other@),
    {
        let same_known = same_path_lists(&self.known, &other.known);
        let same_entries = same_findings(&self.entries, &other.entries);
        self.initialized == other.initialized && same_known && same_entries
    }
}

fn same_path_lists(a: &Vec<FsPath>, b: &Vec<FsPath>) -> (res: bool)
    ensures
        res == (paths_view(a@) == paths_view(b@)),
{
    if a.len() != b.len() {
        assert(paths_view(a@).len() != paths_view(b@).len());
        return false;
    }
    let mut i: usize = 0;
    while i < a.len()
        invariant
            i <= a@.len(),
            a@.len() == b@.len(),
            forall|k: int| 0 <= k < i ==> #[trigger] a@[k]@ == b@[k]@,
        decreases a@.len() - i,
    {
        if !same_bytes(a[i].as_bytes(), b[i].as_bytes()) {
            assert(paths_view(a@)[i as int] != paths_view(b@)[i as int]);
            return false;
        }
        i += 1;
    }
    assert(paths_view(a@) =~= paths_view(b@));
    true
}

fn same_findings(a: &Vec<RosterFinding>, b: &Vec<RosterFinding>) -> (res: bool)
    ensures
        res == (findings_view(a@) == findings_view(b@)),
{
    let ghost x = findings_view(a@);
    let ghost y = findings_view(b@);
    if a.len() != b.len() {
        assert(x.len() != y.len());
        return false;
    }
    let mut i: usize = 0;
    while i < a.len()
        invariant
            i <= a@.len(),
            a@.len() == b@.len(),
            x == findings_view(a@),
            y == findings_view(b@),
            forall|k: int| 0 <= k < i ==> #[trigger] x[k] == y[k],
        decreases a@.len() - i,
    {
        let same_found = match (&a[i].found, &b[i].found) {
            (Some(p), Some(q)) => same_bytes(p.as_bytes(), q.as_bytes()),
            (None, None) => true,
            _ => false,
        };
        let same = same_found && same_bytes(a[i].path.as_bytes(), b[i].path.as_bytes());
        assert(x[i as int] == a@[i as int]@);
        assert(y[i as int] == b@[i as int]@);
        if !same {
            return false;
        }
        i += 1;
    }
    assert(x =~= y);
    true
}

/// The run that reconciling starts with.
pub open spec fn fresh_run(w: WitnessModel, hub: Seq<u8>) -> ReconcileModel {
    ReconcileModel {
        hub,
        roster: w.entries.map_values(|f: FindingModel| f.path),
        next: 0,
        known: w.known,
        warnings: seq![],
    }
}

/// Where the hub was found satisfied, reconciling the same roster would add
/// nothing.
pub proof fn law_a_satisfied_hub_needs_no_addition(w: WitnessModel, hub: Seq<u8>)
    requires
        satisfied(w),
    ensures
        additions(fresh_run(w, hub), w.entries.map_values(|f: FindingModel| f.found)) == Seq::<
            Seq<u8>,
        >::empty(),
{
    let run = fresh_run(w, hub);
    let found = w.entries.map_values(|f: FindingModel| f.found);
    assert forall|i: int| run.next <= i < run.roster.len() implies (
    #[trigger] found[i] matches Some(repo) ==> holds_path(run.known, repo)) by {
        assert(found[i] == w.entries[i].found);
    }
    law_reconciling_again_adds_nothing(run, found);
}

/// What is found at each entry of a roster.
pub open spec fn findings(roster: Seq<Seq<u8>>, found: Seq<Option<Seq<u8>>>) -> Seq<FindingModel> {
    Seq::new(roster.len(), |i: int| FindingModel { path: roster[i], found: found[i] })
}

/// How a run ends, given what is found at each entry of the roster, and what
/// adding the repository of an entry comes to where it is added.
pub open spec fn reconcile_end(
    run: ReconcileModel,
    found: Seq<Option<Seq<u8>>>,
    adds: Seq<Result<(), BdErrorModel>>,
) -> HubStepModel
    decreases run.roster.len() - run.next,
{
    if 0 <= run.next < run.roster.len() {
        let step = match after_probe(run, found[run.next]) {
            HubStepModel::Add { run: after, .. } => after_add(after, adds[run.next]),
            other => other,
        };
        match step {
            HubStepModel::Probe { run: after } => if after.roster == run.roster && after.next
                == run.next + 1 {
                reconcile_end(after, found, adds)
            } else {
                step
            },
            _ => step,
        }
    } else {
        hub_advance(run)
    }
}

/// Reconciling ends with one warning for each entry of the roster at which
/// nothing is found, in the order of the roster, and no other. An entry that is
/// missing never makes it fail: only a repository that cannot be added does.
pub proof fn law_reconciling_warns_of_what_is_missing(
    run: ReconcileModel,
    found: Seq<Option<Seq<u8>>>,
    adds: Seq<Result<(), BdErrorModel>>,
)
    requires
        0 <= run.next <= run.roster.len(),
        run.warnings == missing_warnings(findings(run.roster, found).take(run.next)),
    ensures
        match reconcile_end(run, found, adds) {
            HubStepModel::Done { warnings } => warnings == missing_warnings(
                findings(run.roster, found),
            ),
            HubStepModel::Failed { error } => exists|i: int|
                run.next <= i < run.roster.len() && (#[trigger] adds[i] matches Err(e) && error
                    == HubErrorModel::Bd(e)),
            _ => false,
        },
    decreases run.roster.len() - run.next,
{
    let all = findings(run.roster, found);
    if run.next < run.roster.len() {
        let here = found[run.next];
        let after = match here {
            None => ReconcileModel {
                next: run.next + 1,
                warnings: run.warnings.push(missing_text(run.roster[run.next])),
                ..run
            },
            Some(repo) => if holds_path(run.known, repo) {
                ReconcileModel { next: run.next + 1, ..run }
            } else {
                ReconcileModel { next: run.next + 1, known: run.known.push(repo), ..run }
            },
        };
        let longer = all.take(run.next + 1);
        assert(longer.drop_last() =~= all.take(run.next));
        assert(longer.last() == all[run.next]);
        assert(after.warnings == missing_warnings(longer));
        law_reconciling_warns_of_what_is_missing(after, found, adds);
        if after.next >= after.roster.len() {
            assert(longer =~= all);
        }
    } else {
        assert(all.take(run.next) =~= all);
    }
}

/// Each entry of the roster at which nothing was found gives one warning, which
/// ends in its path, in the order of the roster; an entry that exists gives none.
pub proof fn law_each_missing_entry_is_named(
    a: Seq<FindingModel>,
    b: Seq<FindingModel>,
    f: FindingModel,
)
    ensures
        missing_warnings(a + b) == missing_warnings(a) + missing_warnings(b),
        f.found is Some ==> missing_warnings(seq![f]).len() == 0,
        f.found is None ==> missing_warnings(seq![f]).len() == 1 && lossy_utf8(f.path).is_suffix_of(
            missing_warnings(seq![f])[0],
        ),
    decreases b.len(),
{
    let one = seq![f];
    assert(one.drop_last() =~= Seq::<FindingModel>::empty());
    reveal_with_fuel(missing_warnings, 2);
    let text = missing_text(f.path);
    assert(text.skip(text.len() - lossy_utf8(f.path).len()) =~= lossy_utf8(f.path));
    if b.len() == 0 {
        assert(a + b =~= a);
        assert(missing_warnings(a + b) =~= missing_warnings(a) + missing_warnings(b));
    } else {
        law_each_missing_entry_is_named(a, b.drop_last(), f);
        assert((a + b).drop_last() =~= a + b.drop_last());
        assert((a + b).last() == b.last());
        assert(missing_warnings(a + b) =~= missing_warnings(a) + missing_warnings(b));
    }
}

/// A hub counts as satisfied exactly where there is nothing to do for it: it is
/// initialized, and reconciling would add nothing.
pub proof fn law_a_hub_without_additions_is_satisfied(w: WitnessModel, hub: Seq<u8>)
    ensures
        satisfied(w) <==> w.initialized && additions(
            fresh_run(w, hub),
            w.entries.map_values(|f: FindingModel| f.found),
        ).len() == 0,
{
    if satisfied(w) {
        law_a_satisfied_hub_needs_no_addition(w, hub);
    }
    let run = fresh_run(w, hub);
    let found = w.entries.map_values(|f: FindingModel| f.found);
    law_reconciling_tracks_each_repository_once(run, found);
    if additions(run, found).len() == 0 {
        assert(run.known + additions(run, found) =~= w.known);
        assert forall|i: int| 0 <= i < w.entries.len() implies ((
        #[trigger] w.entries[i]).found matches Some(repo) ==> holds_path(w.known, repo)) by {
            assert(found[i] == w.entries[i].found);
        }
    }
}

/// What the hub lists as an absolute path stays as it is; a single name is taken
/// from the hub's own directory.
pub proof fn law_relative_entries_lie_below_the_hub(hub: Seq<u8>, stored: Seq<Seq<u8>>, i: int)
    requires
        0 <= i < stored.len(),
    ensures
        stored_paths(hub, stored).len() == stored.len(),
        rooted(stored[i]) ==> stored_paths(hub, stored)[i] == stored[i],
        plain_name(stored[i]) ==> components(stored_paths(hub, stored)[i]) == components(hub).push(
            stored[i],
        ),
{
    if plain_name(stored[i]) {
        law_join_adds_a_component(hub, stored[i]);
        if rooted(stored[i]) {
            assert(stored[i][0] == SLASH);
        }
    }
}

/// The words for a fatal failure of the hub say what failed at which place and
/// end with the reason.
pub proof fn law_a_hub_failure_names_place_and_reason(e: HubErrorModel)
    ensures
        ({
            let text = hub_error_text(e);
            match e {
                HubErrorModel::Bd(source) => text == bd_error_text(source),
                HubErrorModel::Io { path, detail } => ("filesystem error at "@ + lossy_utf8(
                    path,
                )).is_prefix_of(text) && detail.is_suffix_of(text),
                HubErrorModel::Config { path, detail } => ("parsing hub config "@ + lossy_utf8(
                    path,
                )).is_prefix_of(text) && detail.is_suffix_of(text),
                HubErrorModel::UnsafeResetPath { target, data_dir } => ("refusing to reset "@
                    + lossy_utf8(target)).is_prefix_of(text) && lossy_utf8(data_dir).is_suffix_of(
                    text,
                ),
            }
        }),
{
    let text = hub_error_text(e);
    match e {
        HubErrorModel::Bd(_) => {},
        HubErrorModel::Io { path, detail } => {
            let head = "filesystem error at "@ + lossy_utf8(path);
            assert(text.take(head.len() as int) =~= head);
            assert(text.skip(text.len() - detail.len()) =~= detail);
        },
        HubErrorModel::Config { path, detail } => {
            let head = "parsing hub config "@ + lossy_utf8(path);
            assert(text.take(head.len() as int) =~= head);
            assert(text.skip(text.len() - detail.len()) =~= detail);
        },
        HubErrorModel::UnsafeResetPath { target, data_dir } => {
            let head = "refusing to reset "@ + lossy_utf8(target);
            let tail = lossy_utf8(data_dir);
            assert(text.take(head.len() as int) =~= head);
            assert(text.skip(text.len() - tail.len()) =~= tail);
        },
    }
}

/// `bd` initializes the hub exactly where it is not initialized yet, and its list
/// is read once it is. What fails on the way is the end, with its own reason.
pub proof fn law_the_hub_is_initialized_at_most_once(
    hub: Seq<u8>,
    e: IoFailureModel,
    failed: BdErrorModel,
)
    ensures
        after_check(hub, true) == (HubStepModel::ReadRoster { hub }),
        after_check(hub, false) == (HubStepModel::Init { hub }),
        after_init(hub, Ok(())) == after_check(hub, true),
        after_init(hub, Err(failed)) == (HubStepModel::Failed { error: HubErrorModel::Bd(failed) }),
        after_dir(hub, Ok(())) == (HubStepModel::CheckInitialized { hub }),
        after_dir(hub, Err(e)) matches HubStepModel::Failed { error: HubErrorModel::Io { path, detail } }
            && path == hub && detail == e.message,
{
}

/// What is done for an entry of the roster: one that does not exist is warned of
/// and passed over, one that the hub tracks is passed over in silence, and any
/// other is added, once, and tracked from then on. The entry after it comes next.
pub proof fn law_each_entry_is_added_once_or_passed_over(
    run: ReconcileModel,
    found: Option<Seq<u8>>,
    failed: BdErrorModel,
)
    requires
        0 <= run.next < run.roster.len(),
    ensures
        ({
            let step = after_probe(run, found);
            let last = run.next + 1 == run.roster.len();
            &&& step is Add <==> found is Some && !holds_path(run.known, found->Some_0)
            &&& step matches HubStepModel::Add { run: after, repo } ==> {
                &&& Some(repo) == found
                &&& after.known == run.known.push(repo) && after.warnings == run.warnings
                &&& after.next == run.next + 1 && after.roster == run.roster
                &&& after_add(after, Err(failed)) == (HubStepModel::Failed {
                    error: HubErrorModel::Bd(failed),
                })
                &&& last ==> after_add(after, Ok(())) == (HubStepModel::Done {
                    warnings: run.warnings,
                })
                &&& !last ==> after_add(after, Ok(())) == (HubStepModel::Probe { run: after })
            }
            &&& step matches HubStepModel::Probe { run: after } ==> !last && after.next == run.next
                + 1 && after.known == run.known && after.roster == run.roster
                && after.warnings.len() == run.warnings.len() + if found is None {
                1int
            } else {
                0
            }
            &&& step matches HubStepModel::Done { warnings } ==> last && warnings.len()
                == run.warnings.len() + if found is None {
                1int
            } else {
                0
            }
            &&& step is Add || step is Probe || step is Done
        }),
{
}

/// Where the hub lies: in the data directory, with the directory and the
/// configuration of `bd` inside it.
pub proof fn law_where_the_hub_lies(p: PathsModel)
    ensures
        ({
            let hub = hub_path(p);
            let c = components(p.data_dir).push(encode_utf8("hub"@));
            &&& components(hub) == c
            &&& components(hub_beads_path(hub)) == c.push(encode_utf8(".beads"@))
            &&& components(hub_config_path(hub)) == c.push(encode_utf8(".beads"@)).push(
                encode_utf8("config.yaml"@),
            )
        }),
{
    lemma_own_names();
    reveal_strlit(".beads");
    reveal_strlit("config.yaml");
    lemma_ascii_name(".beads"@);
    lemma_ascii_name("config.yaml"@);
    let hub = hub_path(p);
    law_join_adds_a_component(p.data_dir, encode_utf8("hub"@));
    law_join_adds_a_component(hub, encode_utf8(".beads"@));
    law_join_adds_a_component(hub_beads_path(hub), encode_utf8("config.yaml"@));
}

} // verus!
