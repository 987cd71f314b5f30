//! What the terminal interface does in the background: gather a snapshot,
//! search, fetch details, and build texts to copy. The decisions are made here;
//! the caller performs the outside operations in between.
use vstd::prelude::*;
use vstd::string::*;
use vstd::utf8::*;
use crate::app::context::{
    issue_block, law_a_block_names_the_issue_line_by_line, law_a_summary_fits,
    law_the_command_names_place_and_issue, markdown_block, shell_command, shell_reads,
    show_command, summarize, summary_of, word_pair,
};
use crate::app::filter::{PriorityFilter, RepoFilter, RepoFilterModel};
use crate::app::messages::{Msg, MsgModel, ViewMode};
use crate::app::model::{initial_app, step, with_snapshot, AppModel};
use crate::app::state::App;
use crate::bd::client::{BdClient, RepoSyncReport};
use crate::bd::error::{bd_error_text, BdError, BdErrorModel};
use crate::bd::types::{issues_view, BdVersion, Issue, IssueDetail, IssueModel};
use crate::cli::{accepted, gate_text, inert, version_gate, version_view};
use crate::config::{Paths, PathsModel};
use crate::hub::{
    hub_dir, hub_error_text, hub_path, missing_warnings, opt_found, satisfied, HubError,
    HubErrorModel, HubStatus, ReconcileWitness, WitnessModel,
};
use crate::path::{lossy_utf8, FsPath};
use crate::refresh::error::{
    refresh_error_text, repo_error_text, repo_errors_view, RefreshError, RefreshErrorModel,
    RepoErrorModel,
};
use crate::refresh::generation::{AttributionGeneration, HubGenerationToken};
use crate::refresh::pipeline::{
    refresh_result, AttributionCandidate, CandidateModel, RefreshOutcome,
};
use crate::refresh::prefix_map::{
    attributed, collisions_view, CollisionModel, PrefixMap, PrefixMapModel,
};
use crate::refresh::source::{copy_verified, verified_view, VerifiedModel, VerifiedRepoPrefix};
use crate::snapshot::{
    attribute_with_generation, attributed_snapshot, base_name, row_of, Row, RowModel, Snapshot,
    SnapshotModel, UNKNOWN_REPO,
};
use crate::text::{
    append_texts, decimal, decimal_text, law_sanitized_is_inert, lines_of, sanitize, sanitized,
    texts,
};
use crate::time::Timestamp;

verus! {

/// The most characters of a copied text that are shown as a confirmation.
pub const COPY_SUMMARY_MAX: usize = 72;

/// How often each `bd` operation was called while gathering a snapshot.
#[derive(Debug, Clone, Copy, PartialEq, Eq, Structural)]
pub struct OperationCounts {
    pub version: usize,
    pub export: usize,
    pub issue_prefix: usize,
    pub repo_sync: usize,
    pub ready: usize,
    pub search: usize,
}

impl Default for OperationCounts {
    fn default() -> (res: OperationCounts)
        ensures
            res == (OperationCounts {
                version: 0,
                export: 0,
                issue_prefix: 0,
                repo_sync: 0,
                ready: 0,
                search: 0,
            }),
    {
        OperationCounts { version: 0, export: 0, issue_prefix: 0, repo_sync: 0, ready: 0, search: 0 }
    }
}

/// What gathering a snapshot took: times in nanoseconds, calls, and the report
/// of the sync.
#[derive(Debug, Clone, PartialEq, Eq)]
pub struct PipelineMetrics {
    pub total: u64,
    pub version: u64,
    pub reconcile: u64,
    pub source_wall: u64,
    pub sync: u64,
    pub ready: u64,
    pub calls: OperationCounts,
    pub sync_report: Option<RepoSyncReport>,
}

impl Default for PipelineMetrics {
    fn default() -> (res: PipelineMetrics)
        ensures
            res == (PipelineMetrics {
                total: 0,
                version: 0,
                reconcile: 0,
                source_wall: 0,
                sync: 0,
                ready: 0,
                calls: OperationCounts {
                    version: 0,
                    export: 0,
                    issue_prefix: 0,
                    repo_sync: 0,
                    ready: 0,
                    search: 0,
                },
                sync_report: None,
            }),
    {
        PipelineMetrics {
            total: 0,
            version: 0,
            reconcile: 0,
            source_wall: 0,
            sync: 0,
            ready: 0,
            calls: OperationCounts::default(),
            sync_report: None,
        }
    }
}

impl PipelineMetrics {
    /// Adds what finding out the version took, and whether `bd` was asked.
    pub fn add_version(&mut self, asked: bool, nanos: u64)
        ensures
            *final(self) == (PipelineMetrics {
                version: nanos,
                calls: OperationCounts {
                    version: if asked {
                        1
                    } else {
                        0
                    },
                    ..old(self).calls
                },
                ..*old(self)
            }),
    {
        self.version = nanos;
        self.calls.version = if asked {
            1
        } else {
            0
        };
    }

    /// Adds what reconciling took.
    pub fn add_reconcile(&mut self, nanos: u64)
        ensures
            *final(self) == (PipelineMetrics { reconcile: nanos, ..*old(self) }),
    {
        self.reconcile = nanos;
    }

    /// Adds what reading the ready issues took.
    pub fn add_ready(&mut self, nanos: u64)
        ensures
            *final(self) == (PipelineMetrics {
                ready: nanos,
                calls: OperationCounts { ready: 1, ..old(self).calls },
                ..*old(self)
            }),
    {
        self.ready = nanos;
        self.calls.ready = 1;
    }

    /// Adds what everything took.
    pub fn finish(&mut self, nanos: u64)
        ensures
            *final(self) == (PipelineMetrics { total: nanos, ..*old(self) }),
    {
        self.total = nanos;
    }

    /// Adds what a completed sync took.
    pub fn add_refresh(&mut self, outcome: &RefreshOutcome)
        ensures
            *final(self) == (PipelineMetrics {
                source_wall: outcome.metrics.source_wall,
                sync: outcome.metrics.sync,
                calls: OperationCounts {
                    export: outcome.metrics.export_calls,
                    issue_prefix: outcome.metrics.issue_prefix_calls,
                    repo_sync: 1,
                    ..old(self).calls
                },
                sync_report: Some(outcome.sync_report),
                ..*old(self)
            }),
    {
        self.source_wall = outcome.metrics.source_wall;
        self.sync = outcome.metrics.sync;
        self.calls.export = outcome.metrics.export_calls;
        self.calls.issue_prefix = outcome.metrics.issue_prefix_calls;
        self.calls.repo_sync = 1;
        self.sync_report = Some(outcome.sync_report.clone());
    }
}

/// The attribution that belongs to what the hub holds: its generation, the
/// token published with it, and its map.
#[derive(Debug)]
pub struct VerifiedAttribution {
    pub generation: AttributionGeneration,
    pub hub_token: HubGenerationToken,
    pub candidate: AttributionCandidate,
}

/// What a [`VerifiedAttribution`] holds.
pub struct AttributionModel {
    pub generation: nat,
    pub token: Seq<char>,
    pub candidate: CandidateModel,
}

impl View for VerifiedAttribution {
    type V = AttributionModel;

    open spec fn view(&self) -> AttributionModel {
        AttributionModel {
            generation: self.generation@,
            token: self.hub_token@,
            candidate: self.candidate@,
        }
    }
}

impl Clone for VerifiedAttribution {
    fn clone(&self) -> (res: VerifiedAttribution)
        ensures
            res@ == self@,
    {
        VerifiedAttribution {
            generation: self.generation,
            hub_token: self.hub_token.clone(),
            candidate: self.candidate.clone(),
        }
    }
}

/// What lasts from one refresh of a session to the next.
#[derive(Debug)]
pub struct RuntimeRefreshState {
    compatibility: Option<Result<(), String>>,
    reconciled: Option<ReconcileWitness>,
    next_generation: u64,
    current_hub: Option<VerifiedAttribution>,
    maps: Vec<(AttributionGeneration, PrefixMap)>,
}

/// What a [`RuntimeRefreshState`] holds. `compatibility` is what the version
/// gate said, once it was asked.
pub struct SessionModel {
    pub compatibility: Option<Option<Seq<char>>>,
    pub reconciled: Option<WitnessModel>,
    pub next_generation: nat,
    pub current: Option<AttributionModel>,
    pub maps: Seq<(nat, PrefixMapModel)>,
}

pub closed spec fn opt_gate(o: Option<Result<(), String>>) -> Option<Option<Seq<char>>> {
    match o {
        Some(Ok(_)) => Some(None),
        Some(Err(m)) => Some(Some(m@)),
        None => None,
    }
}

pub closed spec fn opt_witness(o: Option<ReconcileWitness>) -> Option<WitnessModel> {
    match o {
        Some(w) => Some(w@),
        None => None,
    }
}

pub open spec fn opt_attribution(o: Option<VerifiedAttribution>) -> Option<AttributionModel> {
    match o {
        Some(v) => Some(v@),
        None => None,
    }
}

spec fn maps_view(v: Seq<(AttributionGeneration, PrefixMap)>) -> Seq<(nat, PrefixMapModel)> {
    v.map_values(|e: (AttributionGeneration, PrefixMap)| (e.0@, e.1@))
}

impl View for RuntimeRefreshState {
    type V = SessionModel;

    closed spec fn view(&self) -> SessionModel {
        SessionModel {
            compatibility: opt_gate(self.compatibility),
            reconciled: opt_witness(self.reconciled),
            next_generation: self.next_generation as nat,
            current: opt_attribution(self.current_hub),
            maps: maps_view(self.maps@),
        }
    }
}

/// The prefixes that the hub's attribution rests on; none where it has no known
/// attribution.
pub open spec fn known_prefixes(s: SessionModel) -> Seq<VerifiedModel> {
    match s.current {
        Some(current) => current.candidate.repos,
        None => seq![],
    }
}

/// The map that is registered for a generation: the one registered last.
pub open spec fn registered(maps: Seq<(nat, PrefixMapModel)>, g: nat) -> Option<PrefixMapModel>
    decreases maps.len(),
{
    if maps.len() == 0 {
        None
    } else if maps.last().0 == g {
        Some(maps.last().1)
    } else {
        registered(maps.drop_last(), g)
    }
}

/// Whether a generation is in use: it is the hub's, or rows refer to it.
pub open spec fn in_use(current: Option<AttributionModel>, retained: Seq<nat>, g: nat) -> bool {
    (current matches Some(c) && c.generation == g) || retained.contains(g)
}

/// What a list of generations holds.
pub open spec fn generations_view(v: Seq<AttributionGeneration>) -> Seq<nat> {
    v.map_values(|g: AttributionGeneration| g@)
}

/// The entries that are in use.
pub open spec fn entries_in_use(
    maps: Seq<(nat, PrefixMapModel)>,
    current: Option<AttributionModel>,
    retained: Seq<nat>,
) -> Seq<(nat, PrefixMapModel)>
    decreases maps.len(),
{
    if maps.len() == 0 {
        seq![]
    } else {
        let before = entries_in_use(maps.drop_last(), current, retained);
        if in_use(current, retained, maps.last().0) {
            before.push(maps.last())
        } else {
            before
        }
    }
}

/// Pruning keeps the map of every generation that is in use, and of no other.
pub proof fn law_pruning_keeps_what_is_in_use(
    maps: Seq<(nat, PrefixMapModel)>,
    current: Option<AttributionModel>,
    retained: Seq<nat>,
    g: nat,
)
    ensures
        registered(entries_in_use(maps, current, retained), g) == if in_use(current, retained, g) {
            registered(maps, g)
        } else {
            None
        },
    decreases maps.len(),
{
    if maps.len() > 0 {
        law_pruning_keeps_what_is_in_use(maps.drop_last(), current, retained, g);
        let before = entries_in_use(maps.drop_last(), current, retained);
        if in_use(current, retained, maps.last().0) {
            assert(before.push(maps.last()).drop_last() =~= before);
        }
    }
}

/// The entries of all generations but one.
pub open spec fn entries_without(maps: Seq<(nat, PrefixMapModel)>, g: nat) -> Seq<
    (nat, PrefixMapModel),
>
    decreases maps.len(),
{
    if maps.len() == 0 {
        seq![]
    } else {
        let before = entries_without(maps.drop_last(), g);
        if maps.last().0 == g {
            before
        } else {
            before.push(maps.last())
        }
    }
}

/// The entries with the map of a generation put in.
pub open spec fn entries_with(
    maps: Seq<(nat, PrefixMapModel)>,
    g: nat,
    map: PrefixMapModel,
) -> Seq<(nat, PrefixMapModel)> {
    entries_without(maps, g).push((g, map))
}

/// Registering a map replaces the one of that generation and leaves those of
/// other generations alone.
pub proof fn law_registering_is_local(
    maps: Seq<(nat, PrefixMapModel)>,
    g: nat,
    map: PrefixMapModel,
    other: nat,
)
    ensures
        registered(entries_with(maps, g, map), other) == if other == g {
            Some(map)
        } else {
            registered(maps, other)
        },
{
    lemma_entries_without(maps, g, other);
    assert(entries_with(maps, g, map).drop_last() =~= entries_without(maps, g));
}

proof fn lemma_entries_without(maps: Seq<(nat, PrefixMapModel)>, g: nat, other: nat)
    ensures
        other != g ==> registered(entries_without(maps, g), other) == registered(maps, other),
    decreases maps.len(),
{
    if maps.len() > 0 {
        let before = entries_without(maps.drop_last(), g);
        lemma_entries_without(maps.drop_last(), g, other);
        assert(before.push(maps.last()).drop_last() =~= before);
    }
}

/// A session that has just begun.
pub open spec fn new_session() -> SessionModel {
    SessionModel {
        compatibility: None,
        reconciled: None,
        next_generation: 0,
        current: None,
        maps: seq![],
    }
}

/// What can happen to a session.
pub enum SessionEvent {
    /// `bd` was asked for its version.
    VersionChecked { version: Result<(Seq<char>, int), BdErrorModel> },
    /// The hub was observed after reconciling.
    Reconciled { witness: WitnessModel },
    /// A refresh ended with a token published beside the hub.
    Published { token: Seq<char>, candidate: CandidateModel },
    /// A refresh synced the hub, but no token could be published.
    PublishFailed,
    /// A map was registered.
    Registered { generation: nat, map: PrefixMapModel },
    /// All maps but those in use were forgotten.
    Pruned { retained: Seq<nat> },
}

/// The session after something happened to it.
pub open spec fn session_next(s: SessionModel, event: SessionEvent) -> SessionModel {
    match event {
        SessionEvent::VersionChecked { version } => SessionModel {
            compatibility: Some(gate_warning(version)),
            ..s
        },
        SessionEvent::Reconciled { witness } => SessionModel { reconciled: Some(witness), ..s },
        SessionEvent::Published { token, candidate } => {
            let g = s.next_generation + 1;
            SessionModel {
                next_generation: g,
                current: Some(AttributionModel { generation: g, token, candidate }),
                maps: entries_with(s.maps, g, candidate.prefix_map),
                ..s
            }
        },
        SessionEvent::PublishFailed => SessionModel { current: None, ..s },
        SessionEvent::Registered { generation, map } => SessionModel {
            maps: entries_with(s.maps, generation, map),
            ..s
        },
        SessionEvent::Pruned { retained } => SessionModel {
            maps: entries_in_use(s.maps, s.current, retained),
            ..s
        },
    }
}

/// What gathering a snapshot does next.
#[derive(Debug)]
pub enum GatherStep {
    /// Ask `bd` for its version.
    CheckVersion,
    /// Reconcile the hub with the roster.
    Reconcile,
    /// Refresh, with the prefixes that the last refresh verified as a hint.
    Refresh { warnings: Vec<String>, previous: Vec<VerifiedRepoPrefix> },
    /// Publish a fresh token beside the hub.
    Publish { warnings: Vec<String>, outcome: RefreshOutcome, candidate: AttributionCandidate },
    /// Read the ready issues.
    ReadReady {
        warnings: Vec<String>,
        generation: AttributionGeneration,
        prefix_map: PrefixMap,
        fetched_at: Timestamp,
    },
    /// The snapshot, or none where it could not be gathered; and what to warn
    /// about.
    Done { snapshot: Option<Snapshot>, warnings: Vec<String> },
}

/// What gathering a snapshot waits for, and what it warns about so far.
pub enum GatherWait {
    Version,
    Reconcile,
    Refresh { warnings: Seq<Seq<char>> },
    Publish { warnings: Seq<Seq<char>> },
    Ready { warnings: Seq<Seq<char>> },
    Done { warnings: Seq<Seq<char>> },
}

/// What gathering a snapshot learns from outside.
pub enum GatherEvent {
    Version(Result<(Seq<char>, int), BdErrorModel>),
    Reconciled(Result<Seq<Seq<char>>, HubErrorModel>),
    /// The failures of repositories and the shared prefixes, where the refresh
    /// completed.
    Refreshed(Result<(Seq<RepoErrorModel>, Seq<CollisionModel>), RefreshErrorModel>),
    Published(Result<(), RefreshErrorModel>),
    Ready(Result<(), BdErrorModel>),
}

/// What a step waits for, and what it warns about.
pub open spec fn gather_wait(step: GatherStep) -> GatherWait {
    match step {
        GatherStep::CheckVersion => GatherWait::Version,
        GatherStep::Reconcile => GatherWait::Reconcile,
        GatherStep::Refresh { warnings, .. } => GatherWait::Refresh { warnings: texts(warnings@) },
        GatherStep::Publish { warnings, .. } => GatherWait::Publish { warnings: texts(warnings@) },
        GatherStep::ReadReady { warnings, .. } => GatherWait::Ready { warnings: texts(warnings@) },
        GatherStep::Done { warnings, .. } => GatherWait::Done { warnings: texts(warnings@) },
    }
}

/// What gathering a snapshot waits for first.
pub open spec fn gather_start(s: SessionModel) -> GatherWait {
    match s.compatibility {
        None => GatherWait::Version,
        Some(None) => GatherWait::Reconcile,
        Some(Some(message)) => GatherWait::Done { warnings: seq![message] },
    }
}

/// The warning that a refresh which did not complete ends with.
pub open spec fn no_refresh_warning(e: RefreshErrorModel) -> Seq<char> {
    if e == RefreshErrorModel::AlreadyRefreshing {
        "another fbd is refreshing this hub; keeping the current view"@
    } else {
        sanitized("refresh failed: "@ + refresh_error_text(e))
    }
}

/// What gathering a snapshot waits for after it learned something; nothing
/// changes where it did not wait for that.
pub open spec fn gather_next(wait: GatherWait, event: GatherEvent) -> GatherWait {
    match (wait, event) {
        (GatherWait::Version, GatherEvent::Version(version)) => match gate_warning(version) {
            None => GatherWait::Reconcile,
            Some(message) => GatherWait::Done { warnings: seq![message] },
        },
        (GatherWait::Reconcile, GatherEvent::Reconciled(result)) => match result {
            Ok(w) => GatherWait::Refresh {
                warnings: w.map_values(|t: Seq<char>| sanitized(t)),
            },
            Err(e) => GatherWait::Done {
                warnings: seq![sanitized("hub error: "@ + hub_error_text(e))],
            },
        },
        (GatherWait::Refresh { warnings }, GatherEvent::Refreshed(result)) => match result {
            Ok((errors, collisions)) => GatherWait::Publish {
                warnings: warnings + refresh_warnings(errors, collisions),
            },
            Err(e) => GatherWait::Done { warnings: warnings.push(no_refresh_warning(e)) },
        },
        (GatherWait::Publish { warnings }, GatherEvent::Published(result)) => match result {
            Ok(_) => GatherWait::Ready { warnings },
            Err(e) => GatherWait::Done {
                warnings: warnings.push(sanitized("refresh failed: "@ + refresh_error_text(e))),
            },
        },
        (GatherWait::Ready { warnings }, GatherEvent::Ready(result)) => match result {
            Ok(_) => GatherWait::Done { warnings },
            Err(e) => GatherWait::Done {
                warnings: warnings.push(
                    sanitized("reading ready list failed: "@ + bd_error_text(e)),
                ),
            },
        },
        _ => wait,
    }
}

/// What gathering a snapshot in a session waits for after some events.
pub open spec fn gather_after(s: SessionModel, events: Seq<GatherEvent>) -> GatherWait
    decreases events.len(),
{
    if events.len() == 0 {
        gather_start(s)
    } else {
        gather_next(gather_after(s, events.drop_last()), events.last())
    }
}

/// What reconciling came to.
pub open spec fn reconcile_result(r: Result<Vec<String>, HubError>) -> Result<
    Seq<Seq<char>>,
    HubErrorModel,
> {
    match r {
        Ok(w) => Ok(texts(w@)),
        Err(e) => Err(e@),
    }
}

/// What a refresh came to, as far as it gives cause to warn.
pub open spec fn troubles(r: Result<(RefreshOutcome, AttributionCandidate), RefreshError>) -> Result<
    (Seq<RepoErrorModel>, Seq<CollisionModel>),
    RefreshErrorModel,
> {
    match r {
        Ok((outcome, _)) => Ok((outcome@.errors, outcome@.prefix_map.collisions)),
        Err(e) => Err(e@),
    }
}

/// Whether the ready issues were read.
pub open spec fn ready_result(r: Result<Vec<Issue>, BdError>) -> Result<(), BdErrorModel> {
    match r {
        Ok(_) => Ok(()),
        Err(e) => Err(e@),
    }
}

/// Whether a step ends with no snapshot and these warnings.
pub open spec fn gave_up(step: GatherStep, warnings: Seq<Seq<char>>) -> bool {
    step matches GatherStep::Done { snapshot, warnings: w } && snapshot is None && texts(w@)
        == warnings
}

/// What the version gate says, as a warning; none where the version is
/// accepted.
pub open spec fn gate_warning(version: Result<(Seq<char>, int), BdErrorModel>) -> Option<
    Seq<char>,
> {
    match version {
        Ok((v, schema)) => if accepted(v, schema) {
            None
        } else {
            Some(sanitized(gate_text(v, schema)))
        },
        Err(e) => Some(sanitized("bd version check failed: "@ + bd_error_text(e))),
    }
}

/// The warning about a prefix that several repositories claim.
pub open spec fn collision_warning(c: CollisionModel) -> Seq<char> {
    sanitized(
        "id prefix `"@ + c.prefix + "` is claimed by "@ + decimal(c.repos.len())
            + " repos; its issues show as `"@ + UNKNOWN_REPO@ + "`"@,
    )
}

/// The warnings about a refresh: the failures of repositories, then the shared
/// prefixes.
pub open spec fn refresh_warnings(
    errors: Seq<RepoErrorModel>,
    collisions: Seq<CollisionModel>,
) -> Seq<Seq<char>> {
    errors.map_values(|e: RepoErrorModel| sanitized(repo_error_text(e))) + collisions.map_values(
        |c: CollisionModel| collision_warning(c),
    )
}

fn one_warning(text: String) -> (res: Vec<String>)
    ensures
        texts(res@) == seq![text@],
{
    let v = vec![text];
    assert(texts(v@) =~= seq![text@]);
    v
}

fn with_warning(warnings: Vec<String>, text: String) -> (res: Vec<String>)
    ensures
        texts(res@) == texts(warnings@).push(text@),
{
    let mut out = warnings;
    out.push(text);
    assert(texts(out@) =~= texts(warnings@).push(text@));
    out
}

/// A message for the screen.
pub(crate) fn prefixed(head: &str, text: &str) -> (res: String)
    ensures
        res@ == sanitized(head@ + text@),
{
    let mut out = String::from_str(head);
    out.append(text);
    sanitize(out.as_str())
}

fn outcome_warnings(outcome: &RefreshOutcome) -> (res: Vec<String>)
    ensures
        texts(res@) == refresh_warnings(
            repo_errors_view(outcome.errors@),
            outcome.prefix_map@.collisions,
        ),
{
    let mut out: Vec<String> = Vec::new();
    let ghost errors = repo_errors_view(outcome.errors@);
    let mut i: usize = 0;
    while i < outcome.errors.len()
        invariant
            i <= outcome.errors@.len(),
            errors == repo_errors_view(outcome.errors@),
            out@.len() == i,
            forall|k: int|
                0 <= k < i ==> (#[trigger] out@[k])@ == sanitized(repo_error_text(errors[k])),
        decreases outcome.errors@.len() - i,
    {
        let text = outcome.errors[i].message();
        out.push(sanitize(text.as_str()));
        i += 1;
    }
    let shared = outcome.prefix_map.collisions();
    let ghost collisions = collisions_view(shared@);
    let mut j: usize = 0;
    while j < shared.len()
        invariant
            j <= shared@.len(),
            errors.len() == outcome.errors@.len(),
            collisions == collisions_view(shared@),
            out@.len() == errors.len() + j,
            forall|k: int|
                0 <= k < errors.len() ==> (#[trigger] out@[k])@ == sanitized(
                    repo_error_text(errors[k]),
                ),
            forall|k: int|
                0 <= k < j ==> (#[trigger] out@[errors.len() + k])@ == collision_warning(
                    collisions[k],
                ),
        decreases shared@.len() - j,
    {
        let mut text = String::from_str("id prefix `");
        text.append(shared[j].prefix.as_str());
        text.append("` is claimed by ");
        text.append(decimal_text(shared[j].repos.len() as u64).as_str());
        text.append(" repos; its issues show as `");
        text.append(UNKNOWN_REPO);
        text.append("`");
        let clean = sanitize(text.as_str());
        assert(clean@ == collision_warning(collisions[j as int]));
        out.push(clean);
        j += 1;
    }
    assert(texts(out@) =~= refresh_warnings(errors, collisions)) by {
        assert forall|k: int| 0 <= k < out@.len() implies texts(out@)[k] == refresh_warnings(
            errors,
            collisions,
        )[k] by {
            if k >= errors.len() {
                assert(out@[errors.len() + (k - errors.len())] == out@[k]);
            }
        }
    }
    out
}

/// What reconciling does next.
#[derive(Debug, PartialEq, Eq)]
pub enum ReconcileStep {
    /// Observe the hub and the roster.
    Observe,
    /// Make the hub ready.
    EnsureHub,
    /// Observe them once more, now that the hub is ready; these are the warnings
    /// about making it so.
    ObserveAgain { warnings: Vec<String> },
    /// The warnings, or why the hub could not be reconciled.
    Done { result: Result<Vec<String>, HubError> },
}

/// What a [`ReconcileStep`] holds.
pub enum ReconcileStepModel {
    Observe,
    EnsureHub,
    ObserveAgain { warnings: Seq<Seq<char>> },
    Done { result: Result<Seq<Seq<char>>, HubErrorModel> },
}

impl View for ReconcileStep {
    type V = ReconcileStepModel;

    open spec fn view(&self) -> ReconcileStepModel {
        match self {
            ReconcileStep::Observe => ReconcileStepModel::Observe,
            ReconcileStep::EnsureHub => ReconcileStepModel::EnsureHub,
            ReconcileStep::ObserveAgain { warnings } => ReconcileStepModel::ObserveAgain {
                warnings: texts(warnings@),
            },
            ReconcileStep::Done { result } => ReconcileStepModel::Done {
                result: reconcile_result(*result),
            },
        }
    }
}

/// What came of a step of reconciling.
pub enum ReconcileEvent {
    Observed(Result<WitnessModel, HubErrorModel>),
    HubEnsured(Result<Seq<Seq<char>>, HubErrorModel>),
    ObservedAgain(Result<WitnessModel, HubErrorModel>),
}

/// The session and the step after an outcome. What was satisfied when the session
/// last reconciled, and has not changed, is not reconciled again. What is observed
/// after the hub was made ready is remembered. An outcome of something else than
/// what was asked for changes nothing.
pub open spec fn reconcile_next(
    s: SessionModel,
    step: ReconcileStepModel,
    event: ReconcileEvent,
) -> (SessionModel, ReconcileStepModel) {
    match (step, event) {
        (ReconcileStepModel::Observe, ReconcileEvent::Observed(before)) => match before {
            Ok(w) => if s.reconciled == Some(w) && satisfied(w) {
                (s, ReconcileStepModel::Done { result: Ok(missing_warnings(w.entries)) })
            } else {
                (s, ReconcileStepModel::EnsureHub)
            },
            Err(e) => (s, ReconcileStepModel::Done { result: Err(e) }),
        },
        (ReconcileStepModel::EnsureHub, ReconcileEvent::HubEnsured(status)) => match status {
            Ok(warnings) => (s, ReconcileStepModel::ObserveAgain { warnings }),
            Err(e) => (s, ReconcileStepModel::Done { result: Err(e) }),
        },
        (
            ReconcileStepModel::ObserveAgain { warnings },
            ReconcileEvent::ObservedAgain(after),
        ) => match after {
            Ok(w) => (
                session_next(s, SessionEvent::Reconciled { witness: w }),
                ReconcileStepModel::Done { result: Ok(warnings) },
            ),
            Err(e) => (s, ReconcileStepModel::Done { result: Err(e) }),
        },
        _ => (s, step),
    }
}

/// What observing the hub came to.
pub open spec fn witness_result(r: Result<ReconcileWitness, HubError>) -> Result<
    WitnessModel,
    HubErrorModel,
> {
    match r {
        Ok(w) => Ok(w@),
        Err(e) => Err(e@),
    }
}

/// What making the hub ready came to.
pub open spec fn status_result(r: Result<HubStatus, HubError>) -> Result<
    Seq<Seq<char>>,
    HubErrorModel,
> {
    match r {
        Ok(status) => Ok(texts(status.warnings@)),
        Err(e) => Err(e@),
    }
}

/// Starts to reconcile.
pub fn ensure_reconciled() -> (res: ReconcileStep)
    ensures
        res@ == ReconcileStepModel::Observe,
{
    ReconcileStep::Observe
}

/// After making the hub ready.
pub fn hub_ensured(status: Result<HubStatus, HubError>) -> (res: ReconcileStep)
    ensures
        forall|s: SessionModel|
            (s, res@) == #[trigger] reconcile_next(
                s,
                ReconcileStepModel::EnsureHub,
                ReconcileEvent::HubEnsured(status_result(status)),
            ),
{
    match status {
        Ok(status) => ReconcileStep::ObserveAgain { warnings: status.warnings },
        Err(e) => ReconcileStep::Done { result: Err(e) },
    }
}

impl Default for RuntimeRefreshState {
    fn default() -> (res: RuntimeRefreshState)
        ensures
            res@ == new_session(),
    {
        RuntimeRefreshState::new()
    }
}

impl RuntimeRefreshState {
    /// A new session: nothing was asked, reconciled or refreshed.
    pub fn new() -> (res: RuntimeRefreshState)
        ensures
            res@ == new_session(),
    {
        let res = RuntimeRefreshState {
            compatibility: None,
            reconciled: None,
            next_generation: 0,
            current_hub: None,
            maps: Vec::new(),
        };
        assert(res@.maps =~= seq![]);
        res
    }

    /// The number of the last generation.
    pub fn last_generation(&self) -> (res: u64)
        ensures
            res == self@.next_generation,
    {
        self.next_generation
    }

    /// The attribution that belongs to what the hub holds.
    pub fn current_hub(&self) -> (res: Option<&VerifiedAttribution>)
        ensures
            (match res {
                Some(v) => Some(v@),
                None => None,
            }) == self@.current,
    {
        self.current_hub.as_ref()
    }

    /// The map that is registered for a generation.
    pub fn map_for(&self, generation: AttributionGeneration) -> (res: Option<&PrefixMap>)
        ensures
            (match res {
                Some(m) => Some(m@),
                None => None,
            }) == registered(self@.maps, generation@),
    {
        let ghost all = self@.maps;
        let mut i: usize = self.maps.len();
        assert(all.take(i as int) =~= all);
        while i > 0
            invariant
                i <= self.maps@.len(),
                all == maps_view(self.maps@),
                registered(all, generation@) == registered(all.take(i as int), generation@),
            decreases i,
        {
            assert(all.take(i as int).last() == all[i - 1]);
            assert(all[i - 1] == (self.maps@[i - 1].0@, self.maps@[i - 1].1@));
            assert(all.take(i as int).drop_last() =~= all.take(i - 1));
            if self.maps[i - 1].0.value() == generation.value() {
                return Some(&self.maps[i - 1].1);
            }
            i -= 1;
        }
        None
    }

    /// Registers the map of a generation.
    pub fn register_map(&mut self, generation: AttributionGeneration, map: PrefixMap)
        ensures
            final(self)@ == session_next(
                old(self)@,
                SessionEvent::Registered { generation: generation@, map: map@ },
            ),
    {
        let ghost before = self@;
        let ghost entry = (generation@, map@);
        let mut old_maps: Vec<(AttributionGeneration, PrefixMap)> = Vec::new();
        std::mem::swap(&mut old_maps, &mut self.maps);
        let ghost all = maps_view(old_maps@);
        let mut maps: Vec<(AttributionGeneration, PrefixMap)> = Vec::new();
        let mut i: usize = 0;
        assert(maps_view(maps@) =~= entries_without(all.take(0), generation@));
        while i < old_maps.len()
            invariant
                i <= old_maps@.len(),
                all == maps_view(old_maps@),
                maps_view(maps@) == entries_without(all.take(i as int), generation@),
            decreases old_maps@.len() - i,
        {
            let ghost sofar = maps@;
            let g = old_maps[i].0;
            assert(all.take(i + 1).drop_last() =~= all.take(i as int));
            assert(all.take(i + 1).last() == all[i as int]);
            assert(all[i as int] == (old_maps@[i as int].0@, old_maps@[i as int].1@));
            if g.value() != generation.value() {
                let kept = old_maps[i].1.clone();
                maps.push((g, kept));
                assert(maps_view(maps@) =~= maps_view(sofar).push(all[i as int]));
            }
            i += 1;
        }
        assert(all.take(all.len() as int) =~= all);
        let ghost sofar = maps@;
        maps.push((generation, map));
        assert(maps_view(maps@) =~= maps_view(sofar).push(entry));
        self.maps = maps;
    }

    /// Forgets the maps of generations that are not in use: those that are
    /// neither the hub's nor in `retained`.
    pub fn prune(&mut self, retained: &Vec<AttributionGeneration>)
        ensures
            final(self)@ == session_next(
                old(self)@,
                SessionEvent::Pruned { retained: generations_view(retained@) },
            ),
    {
        let ghost before = self@;
        let ghost kept = generations_view(retained@);
        let current: Option<u64> = match &self.current_hub {
            Some(v) => Some(v.generation.value()),
            None => None,
        };
        let mut old_maps: Vec<(AttributionGeneration, PrefixMap)> = Vec::new();
        std::mem::swap(&mut old_maps, &mut self.maps);
        let ghost all = maps_view(old_maps@);
        let mut maps: Vec<(AttributionGeneration, PrefixMap)> = Vec::new();
        let mut i: usize = 0;
        assert(maps_view(maps@) =~= entries_in_use(all.take(0), before.current, kept));
        while i < old_maps.len()
            invariant
                i <= old_maps@.len(),
                all == maps_view(old_maps@),
                kept == generations_view(retained@),
                (match current {
                    Some(c) => before.current matches Some(v) && v.generation == c,
                    None => before.current is None,
                }),
                maps_view(maps@) == entries_in_use(all.take(i as int), before.current, kept),
            decreases old_maps@.len() - i,
        {
            let ghost sofar = maps@;
            let g = old_maps[i].0;
            assert(all.take(i + 1).drop_last() =~= all.take(i as int));
            assert(all.take(i + 1).last() == all[i as int]);
            assert(all[i as int] == (old_maps@[i as int].0@, old_maps@[i as int].1@));
            let is_current = match current {
                Some(c) => c == g.value(),
                None => false,
            };
            if is_current || holds_generation(retained, g) {
                let map = old_maps[i].1.clone();
                maps.push((g, map));
                assert(maps_view(maps@) =~= maps_view(sofar).push(all[i as int]));
            }
            i += 1;
        }
        assert(all.take(all.len() as int) =~= all);
        self.maps = maps;
    }

    /// The first step of gathering a snapshot. The version of `bd` is asked
    /// for once in a session.
    pub fn gather(&self) -> (res: GatherStep)
        ensures
            match self@.compatibility {
                None => res is CheckVersion,
                Some(None) => res is Reconcile,
                Some(Some(message)) => gave_up(res, seq![message]),
            },
            gather_wait(res) == gather_start(self@),
    {
        match &self.compatibility {
            None => GatherStep::CheckVersion,
            Some(Ok(_)) => GatherStep::Reconcile,
            Some(Err(message)) => GatherStep::Done {
                snapshot: None,
                warnings: one_warning(message.clone()),
            },
        }
    }

    /// After asking `bd` for its version: whether it is accepted holds for the
    /// session.
    pub fn version_checked(&mut self, version: Result<BdVersion, BdError>) -> (res: GatherStep)
        ensures
            ({
                let warning = gate_warning(version_view(version));
                &&& final(self)@ == session_next(
                    old(self)@,
                    SessionEvent::VersionChecked { version: version_view(version) },
                )
                &&& match warning {
                    None => res is Reconcile,
                    Some(message) => gave_up(res, seq![message]),
                }
            }),
            gather_wait(res) == gather_next(
                GatherWait::Version,
                GatherEvent::Version(version_view(version)),
            ),
    {
        let verdict: Result<(), String> = match version {
            Ok(v) => match version_gate(&v) {
                Ok(()) => Ok(()),
                Err(message) => Err(sanitize(message.as_str())),
            },
            Err(e) => Err(prefixed("bd version check failed: ", e.message().as_str())),
        };
        self.compatibility = Some(verdict);
        self.gather()
    }

    /// After observing the hub and the roster.
    pub fn observed(&self, before: Result<ReconcileWitness, HubError>) -> (res: ReconcileStep)
        ensures
            (self@, res@) == reconcile_next(
                self@,
                ReconcileStepModel::Observe,
                ReconcileEvent::Observed(witness_result(before)),
            ),
    {
        match before {
            Ok(w) => {
                let unchanged = match &self.reconciled {
                    Some(cached) => cached.same(&w),
                    None => false,
                };
                if unchanged && w.is_satisfied() {
                    ReconcileStep::Done { result: Ok(w.warnings()) }
                } else {
                    ReconcileStep::EnsureHub
                }
            },
            Err(error) => ReconcileStep::Done { result: Err(error) },
        }
    }

    /// After observing them once more.
    pub fn observed_again(
        &mut self,
        warnings: Vec<String>,
        after: Result<ReconcileWitness, HubError>,
    ) -> (res: ReconcileStep)
        ensures
            (final(self)@, res@) == reconcile_next(
                old(self)@,
                ReconcileStepModel::ObserveAgain { warnings: texts(warnings@) },
                ReconcileEvent::ObservedAgain(witness_result(after)),
            ),
    {
        match after {
            Ok(w) => {
                self.reconciled = Some(w);
                ReconcileStep::Done { result: Ok(warnings) }
            },
            Err(error) => ReconcileStep::Done { result: Err(error) },
        }
    }

    /// After reconciling.
    pub fn reconciled(&self, result: Result<Vec<String>, HubError>) -> (res: GatherStep)
        ensures
            match result {
                Ok(w) => res matches GatherStep::Refresh { warnings, previous } && texts(warnings@)
                    == texts(w@).map_values(|t: Seq<char>| sanitized(t)) && verified_view(previous@)
                    == known_prefixes(self@),
                Err(e) => gave_up(res, seq![sanitized("hub error: "@ + hub_error_text(e@))]),
            },
            gather_wait(res) == gather_next(
                GatherWait::Reconcile,
                GatherEvent::Reconciled(reconcile_result(result)),
            ),
    {
        match result {
            Ok(w) => {
                let mut warnings: Vec<String> = Vec::new();
                let mut i: usize = 0;
                while i < w.len()
                    invariant
                        i <= w@.len(),
                        warnings@.len() == i,
                        forall|k: int|
                            0 <= k < i ==> (#[trigger] warnings@[k])@ == sanitized(w@[k]@),
                    decreases w@.len() - i,
                {
                    warnings.push(sanitize(w[i].as_str()));
                    i += 1;
                }
                assert(texts(warnings@) =~= texts(w@).map_values(|t: Seq<char>| sanitized(t)));
                let previous = match &self.current_hub {
                    Some(current) => copy_verified(&current.candidate.repos),
                    None => Vec::new(),
                };
                assert(verified_view(previous@) =~= known_prefixes(self@));
                GatherStep::Refresh { warnings, previous }
            },
            Err(e) => GatherStep::Done {
                snapshot: None,
                warnings: one_warning(prefixed("hub error: ", e.message().as_str())),
            },
        }
    }

    /// After the refresh. Where another instance holds the hub, or the refresh
    /// failed, the current view is kept.
    pub fn refreshed(
        &self,
        warnings: Vec<String>,
        result: Result<(RefreshOutcome, AttributionCandidate), RefreshError>,
    ) -> (res: GatherStep)
        ensures
            match result {
                Ok((o, c)) => res matches GatherStep::Publish { warnings: w, outcome, candidate }
                    && outcome@ == o@ && candidate@ == c@ && texts(w@) == texts(warnings@)
                    + refresh_warnings(repo_errors_view(o.errors@), o.prefix_map@.collisions),
                Err(e) => gave_up(res, texts(warnings@).push(no_refresh_warning(e@))),
            },
            gather_wait(res) == gather_next(
                GatherWait::Refresh { warnings: texts(warnings@) },
                GatherEvent::Refreshed(troubles(result)),
            ),
    {
        match result {
            Ok((outcome, candidate)) => {
                let more = outcome_warnings(&outcome);
                let mut all = warnings;
                append_texts(&mut all, &more);
                GatherStep::Publish { warnings: all, outcome, candidate }
            },
            Err(e) => {
                let text = match &e {
                    RefreshError::AlreadyRefreshing => String::from_str(
                        "another fbd is refreshing this hub; keeping the current view",
                    ),
                    other => prefixed("refresh failed: ", other.message().as_str()),
                };
                GatherStep::Done { snapshot: None, warnings: with_warning(warnings, text) }
            },
        }
    }

    /// After publishing a token beside the hub. Success starts the next
    /// generation, registers its map and makes it the hub's; failure leaves
    /// the hub without a known attribution.
    pub fn published(
        &mut self,
        warnings: Vec<String>,
        outcome: RefreshOutcome,
        candidate: AttributionCandidate,
        token: HubGenerationToken,
        result: Result<(), RefreshError>,
    ) -> (res: GatherStep)
        requires
            old(self)@.next_generation < u64::MAX,
        ensures
            match result {
                Ok(_) => {
                    let g = old(self)@.next_generation + 1;
                    &&& final(self)@ == session_next(
                        old(self)@,
                        SessionEvent::Published { token: token@, candidate: candidate@ },
                    )
                    &&& res matches GatherStep::ReadReady {
                        warnings: w,
                        generation,
                        prefix_map,
                        fetched_at,
                    }
                    &&& texts(w@) == texts(warnings@)
                    &&& generation@ == g
                    &&& prefix_map@ == outcome@.prefix_map
                    &&& fetched_at@ == outcome@.synced_at
                },
                Err(e) => {
                    &&& final(self)@ == session_next(old(self)@, SessionEvent::PublishFailed)
                    &&& gave_up(
                        res,
                        texts(warnings@).push(
                            sanitized("refresh failed: "@ + refresh_error_text(e@)),
                        ),
                    )
                },
            },
            gather_wait(res) == gather_next(
                GatherWait::Publish { warnings: texts(warnings@) },
                GatherEvent::Published(refresh_result(result)),
            ),
    {
        match result {
            Ok(_) => {
                self.next_generation = self.next_generation + 1;
                let generation = AttributionGeneration::new(self.next_generation);
                self.register_map(generation, candidate.prefix_map.clone());
                self.current_hub = Some(
                    VerifiedAttribution { generation, hub_token: token, candidate },
                );
                GatherStep::ReadReady {
                    warnings,
                    generation,
                    prefix_map: outcome.prefix_map,
                    fetched_at: outcome.synced_at,
                }
            },
            Err(e) => {
                self.current_hub = None;
                let text = prefixed("refresh failed: ", e.message().as_str());
                GatherStep::Done { snapshot: None, warnings: with_warning(warnings, text) }
            },
        }
    }
}

fn holds_generation(v: &Vec<AttributionGeneration>, g: AttributionGeneration) -> (res: bool)
    ensures
        res == generations_view(v@).contains(g@),
{
    let mut i: usize = 0;
    while i < v.len()
        invariant
            i <= v@.len(),
            forall|k: int| 0 <= k < i ==> (#[trigger] generations_view(v@)[k]) != g@,
        decreases v@.len() - i,
    {
        assert(generations_view(v@)[i as int] == v@[i as int]@);
        if v[i].value() == g.value() {
            return true;
        }
        i += 1;
    }
    false
}

/// After reading the ready issues: the snapshot, every row stamped with the
/// generation it was attributed in.
pub fn ready_read(
    warnings: Vec<String>,
    generation: AttributionGeneration,
    prefix_map: &PrefixMap,
    fetched_at: Timestamp,
    ready: Result<Vec<Issue>, BdError>,
) -> (res: GatherStep)
    ensures
        match ready {
            Ok(issues) => {
                &&& res matches GatherStep::Done { snapshot, warnings: w }
                &&& texts(w@) == texts(warnings@)
                &&& snapshot matches Some(s)
                &&& attributed_snapshot(
                    issues_view(issues@),
                    prefix_map@.entries,
                    Some(generation@),
                    fetched_at@,
                    s@,
                )
            },
            Err(e) => gave_up(
                res,
                texts(warnings@).push(
                    sanitized("reading ready list failed: "@ + bd_error_text(e@)),
                ),
            ),
        },
        gather_wait(res) == gather_next(
            GatherWait::Ready { warnings: texts(warnings@) },
            GatherEvent::Ready(ready_result(ready)),
        ),
{
    match ready {
        Ok(issues) => GatherStep::Done {
            snapshot: Some(
                attribute_with_generation(issues, prefix_map, fetched_at, generation),
            ),
            warnings,
        },
        Err(e) => {
            let text = prefixed("reading ready list failed: ", e.message().as_str());
            GatherStep::Done { snapshot: None, warnings: with_warning(warnings, text) }
        },
    }
}

// ---------------------------------------------------------------------------
// Details
// ---------------------------------------------------------------------------

/// The detail of an issue, or why it could not be loaded.
pub open spec fn detail_outcome(
    shown: Result<IssueDetail, BdError>,
    id: Seq<char>,
    res: Result<Box<IssueDetail>, String>,
) -> bool {
    match shown {
        Ok(d) => res matches Ok(b) && b@ == d@,
        Err(e) => res matches Err(m) && m@ == sanitized(
            "couldn't load "@ + id + ": "@ + bd_error_text(e@),
        ),
    }
}

/// After `bd` answered with an issue.
pub fn detail_shown(shown: Result<IssueDetail, BdError>, id: &str) -> (res: Result<
    Box<IssueDetail>,
    String,
>)
    ensures
        detail_outcome(shown, id@, res),
{
    match shown {
        Ok(d) => Ok(Box::new(d)),
        Err(e) => {
            let mut out = String::from_str("couldn't load ");
            out.append(id);
            out.append(": ");
            out.append(e.message().as_str());
            Err(sanitize(out.as_str()))
        },
    }
}

/// Fetches one issue from the hub with one `bd show` call.
pub fn gather_detail<B: BdClient>(bd: &B, paths: &Paths, id: &str) -> (res: Result<
    Box<IssueDetail>,
    String,
>)
    ensures
        exists|hub: FsPath, shown: Result<IssueDetail, BdError>|
            hub@ == hub_path(paths@) && #[trigger] call_ensures(B::show, (bd, &hub, id), shown)
                && detail_outcome(shown, id@, res),
{
    let hub = hub_dir(paths);
    let shown = bd.show(&hub, id);
    detail_shown(shown, id)
}

// ---------------------------------------------------------------------------
// Copying
// ---------------------------------------------------------------------------

/// A text to copy and its summary.
pub open spec fn copy_of(payload: Seq<char>) -> (Seq<char>, Seq<char>) {
    (payload, summary_of(payload, COPY_SUMMARY_MAX as nat))
}

fn copied(payload: String) -> (res: (String, String))
    ensures
        (res.0@, res.1@) == copy_of(payload@),
{
    let summary = summarize(payload.as_str(), COPY_SUMMARY_MAX);
    (payload, summary)
}

/// The repository of a row by the map it was attributed with.
pub fn copy_repo(map: Option<&PrefixMap>, row: &Row) -> (res: Option<FsPath>)
    ensures
        opt_found(res) == repo_by(map, row@),
{
    match map {
        Some(m) => match m.repo_for(row.issue.id.as_str()) {
            Some(entry) => Some(entry.path.clone()),
            None => None,
        },
        None => None,
    }
}

/// The command to copy for a row. `repo` is its repository where that is a
/// directory.
pub fn copy_command(paths: &Paths, row: &Row, repo: Option<&FsPath>) -> (res: (String, String))
    ensures
        (res.0@, res.1@) == copy_of(
            show_command(
                match repo {
                    Some(p) => Some(p@),
                    None => None,
                },
                hub_path(paths@),
                row@.issue.id,
            ),
        ),
{
    let hub = hub_dir(paths);
    copied(shell_command(repo, &hub, row.issue.id.as_str()))
}

/// The block of text to copy for a row: about the issue as `bd` shows it now,
/// or as it stands in the row where that failed.
pub open spec fn copied_block(shown: Result<IssueDetail, BdError>, row: RowModel) -> (
    Seq<char>,
    Seq<char>,
) {
    copy_of(
        issue_block(
            match shown {
                Ok(d) => d@.issue,
                Err(_) => row.issue,
            },
            row.repo_name,
        ),
    )
}

/// The block of text to copy for a row, after `bd` answered with its issue.
pub fn copy_block(row: &Row, shown: &Result<IssueDetail, BdError>) -> (res: (String, String))
    ensures
        (res.0@, res.1@) == copied_block(*shown, row@),
{
    match shown {
        Ok(d) => copied(markdown_block(&d.issue, row.repo_name.as_str())),
        Err(_) => copied(markdown_block(&row.issue, row.repo_name.as_str())),
    }
}

/// The repository of a row by the map it was attributed with.
pub open spec fn repo_by(map: Option<&PrefixMap>, row: RowModel) -> Option<Seq<u8>> {
    match map {
        Some(m) => match attributed(m@.entries, row.issue.id) {
            Some((_, repo)) => Some(repo),
            None => None,
        },
        None => None,
    }
}

/// The command to copy for a row: in the repository that the map attributes the
/// row to, as long as that is a directory, and in the hub otherwise.
pub open spec fn copied_command(
    p: PathsModel,
    row: RowModel,
    repo: Option<Seq<u8>>,
    is_dir: bool,
) -> (Seq<char>, Seq<char>) {
    copy_of(
        show_command(
            if is_dir {
                repo
            } else {
                None
            },
            hub_path(p),
            row.issue.id,
        ),
    )
}

/// Builds the text to copy for a row and its summary. The block asks `bd` for
/// the issue once; the command asks nothing. It names the repository that `map`
/// attributes the row to, as long as that is a directory, which `is_dir` tells.
pub fn build_copy_with_map<B: BdClient>(
    bd: &B,
    paths: &Paths,
    row: &Row,
    markdown: bool,
    map: Option<&PrefixMap>,
    is_dir: bool,
) -> (res: (String, String))
    ensures
        markdown ==> exists|hub: FsPath, id: &str, shown: Result<IssueDetail, BdError>|
            hub@ == hub_path(paths@) && id@ == row@.issue.id && #[trigger] call_ensures(
                B::show,
                (bd, &hub, id),
                shown,
            ) && (res.0@, res.1@) == copied_block(shown, row@),
        !markdown ==> (res.0@, res.1@) == copy_of(
            show_command(
                if is_dir {
                    repo_by(map, row@)
                } else {
                    None
                },
                hub_path(paths@),
                row@.issue.id,
            ),
        ),
        !markdown ==> (res.0@, res.1@) == copied_command(
            paths@,
            row@,
            repo_by(map, row@),
            is_dir,
        ),
{
    if markdown {
        let hub = hub_dir(paths);
        let id = row.issue.id.as_str();
        let shown = bd.show(&hub, id);
        copy_block(row, &shown)
    } else {
        let repo = if is_dir {
            copy_repo(map, row)
        } else {
            None
        };
        copy_command(paths, row, repo.as_ref())
    }
}

// ---------------------------------------------------------------------------
// Preferences
// ---------------------------------------------------------------------------

/// The message after storing the choice of repository.
pub open spec fn saved_message(repo: RepoFilterModel, saved: Result<(), Seq<char>>) -> MsgModel {
    MsgModel::RepoViewPersisted {
        repo,
        failure: match saved {
            Ok(_) => None,
            Err(e) => Some(sanitized("couldn't save repository view: "@ + e)),
        },
    }
}

/// What storing the choice of repository came to.
pub open spec fn saved_result(saved: Result<(), String>) -> Result<(), Seq<char>> {
    match saved {
        Ok(_) => Ok(()),
        Err(e) => Err(e@),
    }
}

/// After storing the choice of repository: the interface is told, and a
/// failure is put in words that it can show.
pub fn repo_view_saved(repo: RepoFilter, saved: Result<(), String>) -> (res: Msg)
    ensures
        res@ == (MsgModel::RepoViewPersisted {
            repo: repo@,
            failure: match saved {
                Ok(_) => None,
                Err(e) => Some(sanitized("couldn't save repository view: "@ + e@)),
            },
        }),
        res@ == saved_message(repo@, saved_result(saved)),
{
    let result: Result<(), String> = match saved {
        Ok(_) => Ok(()),
        Err(e) => Err(prefixed("couldn't save repository view: ", e.as_str())),
    };
    Msg::RepoViewPersisted { repo, result }
}

// ---------------------------------------------------------------------------
// Launch
// ---------------------------------------------------------------------------

/// The interface at launch: the stored choice of repository first, then the
/// cached rows, and the first refresh still on its way.
pub fn initial_interface(view: RepoFilter, cached: Option<Snapshot>) -> (res: App)
    ensures
        res.wf(),
        res@ == (match cached {
            Some(s) => with_snapshot(initial_app(view@), s@),
            None => initial_app(view@),
        }),
        res@.stale,
{
    let mut app = App::with_repo_view(view);
    match cached {
        Some(s) => app.hydrate_from_cache(s),
        None => {},
    }
    app
}

// ---------------------------------------------------------------------------
// Laws
// ---------------------------------------------------------------------------

/// The maps of the refreshes that were published, in order: the map of
/// generation `g` stands at `g - 1`.
pub open spec fn published_maps(events: Seq<SessionEvent>) -> Seq<PrefixMapModel>
    decreases events.len(),
{
    if events.len() == 0 {
        seq![]
    } else {
        let before = published_maps(events.drop_last());
        match events.last() {
            SessionEvent::Published { candidate, .. } => before.push(candidate.prefix_map),
            _ => before,
        }
    }
}

/// A session after some events.
pub open spec fn session_after(events: Seq<SessionEvent>) -> SessionModel
    decreases events.len(),
{
    if events.len() == 0 {
        new_session()
    } else {
        session_next(session_after(events.drop_last()), events.last())
    }
}

/// Whether an event can follow some others: the version is checked where
/// gathering asks for it, and a map is registered for the generation that it
/// was published in.
pub open spec fn can_follow(events: Seq<SessionEvent>, event: SessionEvent) -> bool {
    match event {
        SessionEvent::VersionChecked { .. } => session_after(events).compatibility is None,
        SessionEvent::Registered { generation, map } => {
            let maps = published_maps(events);
            1 <= generation <= maps.len() && map == maps[generation - 1]
        },
        _ => true,
    }
}

/// Whether events are those of a session.
pub open spec fn is_session(events: Seq<SessionEvent>) -> bool
    decreases events.len(),
{
    events.len() == 0 || (is_session(events.drop_last()) && can_follow(
        events.drop_last(),
        events.last(),
    ))
}

/// A generation leads to the map that it was published with, or to none, but
/// never to another one; the hub's own generation is the last one published,
/// and its map is there.
pub proof fn law_a_generation_keeps_its_map(events: Seq<SessionEvent>, g: nat)
    requires
        is_session(events),
    ensures
        ({
            let s = session_after(events);
            let maps = published_maps(events);
            &&& s.next_generation == maps.len()
            &&& registered(s.maps, g) matches Some(m) ==> 1 <= g <= maps.len() && m == maps[g - 1]
            &&& s.current matches Some(c) ==> c.generation == maps.len() && registered(
                s.maps,
                c.generation,
            ) == Some(c.candidate.prefix_map)
        }),
    decreases events.len(),
{
    if events.len() > 0 {
        let rest = events.drop_last();
        let s = session_after(rest);
        law_a_generation_keeps_its_map(rest, g);
        let last = published_maps(rest).len();
        match events.last() {
            SessionEvent::Published { candidate, .. } => {
                law_registering_is_local(s.maps, last + 1, candidate.prefix_map, g);
                law_registering_is_local(s.maps, last + 1, candidate.prefix_map, last + 1);
            },
            SessionEvent::Registered { generation, map } => {
                law_registering_is_local(s.maps, generation, map, g);
                law_registering_is_local(s.maps, generation, map, last);
                law_a_generation_keeps_its_map(rest, last);
            },
            SessionEvent::Pruned { retained } => {
                law_pruning_keeps_what_is_in_use(s.maps, s.current, retained, g);
                law_pruning_keeps_what_is_in_use(s.maps, s.current, retained, last);
            },
            _ => {},
        }
    }
}

/// A row on the screen can always be traced: as long as every pruning retains
/// its generation, the map that it was attributed by stays, whatever is
/// refreshed meanwhile.
pub proof fn law_a_row_in_use_keeps_its_map(
    before: Seq<SessionEvent>,
    after: Seq<SessionEvent>,
    g: nat,
)
    requires
        is_session(before + after),
        is_session(before),
        registered(session_after(before).maps, g) is Some,
        forall|i: int|
            0 <= i < after.len() ==> (#[trigger] after[i] matches SessionEvent::Pruned { retained }
                ==> retained.contains(g)),
    ensures
        registered(session_after(before + after).maps, g) == registered(
            session_after(before).maps,
            g,
        ),
    decreases after.len(),
{
    let all = before + after;
    law_a_generation_keeps_its_map(before, g);
    if after.len() == 0 {
        assert(all =~= before);
    } else {
        let rest = after.drop_last();
        assert(all.drop_last() =~= before + rest);
        assert(all.last() == after.last());
        assert forall|i: int| 0 <= i < rest.len() implies (
        #[trigger] rest[i] matches SessionEvent::Pruned { retained } ==> retained.contains(g)) by {
            assert(rest[i] == after[i]);
        }
        law_a_row_in_use_keeps_its_map(before, rest, g);
        law_a_generation_keeps_its_map(before + rest, g);
        let s = session_after(before + rest);
        let last = published_maps(before + rest).len();
        match after.last() {
            SessionEvent::Published { candidate, .. } => {
                law_registering_is_local(s.maps, last + 1, candidate.prefix_map, g);
            },
            SessionEvent::Registered { generation, map } => {
                law_registering_is_local(s.maps, generation, map, g);
            },
            SessionEvent::Pruned { retained } => {
                assert(after[after.len() - 1] == after.last());
                law_pruning_keeps_what_is_in_use(s.maps, s.current, retained, g);
            },
            _ => {},
        }
    }
}

/// What `bd` was found to be lasts for the session: once its version was
/// checked, the verdict never changes.
pub proof fn law_the_version_is_checked_once(before: Seq<SessionEvent>, after: Seq<SessionEvent>)
    requires
        is_session(before + after),
        session_after(before).compatibility is Some,
    ensures
        session_after(before + after).compatibility == session_after(before).compatibility,
    decreases after.len(),
{
    let all = before + after;
    if after.len() == 0 {
        assert(all =~= before);
    } else {
        assert(all.drop_last() =~= before + after.drop_last());
        law_the_version_is_checked_once(before, after.drop_last());
    }
}

/// A session and the step of reconciling in it, after some events.
pub open spec fn reconcile_after(s: SessionModel, events: Seq<ReconcileEvent>) -> (
    SessionModel,
    ReconcileStepModel,
)
    decreases events.len(),
{
    if events.len() == 0 {
        (s, ReconcileStepModel::Observe)
    } else {
        let before = reconcile_after(s, events.drop_last());
        reconcile_next(before.0, before.1, events.last())
    }
}

/// Whether some events hold that the hub was made ready and, later, observed like
/// this.
pub open spec fn saw_ready_then(events: Seq<ReconcileEvent>, witness: WitnessModel) -> bool {
    exists|i: int, j: int|
        0 <= i < j < events.len() && (#[trigger] events[i] matches ReconcileEvent::HubEnsured(
            Ok(_),
        )) && #[trigger] events[j] == ReconcileEvent::ObservedAgain(Ok(witness))
}

/// Only a hub that was made ready is remembered, as it was observed after that;
/// and without making it ready, reconciling succeeds only where it finds the hub
/// satisfied and exactly as it was when the session last reconciled. Nothing else
/// of the session changes.
pub proof fn law_only_a_ready_hub_is_remembered(s: SessionModel, events: Seq<ReconcileEvent>)
    ensures
        ({
            let (after, step) = reconcile_after(s, events);
            &&& after == (SessionModel { reconciled: after.reconciled, ..s })
            &&& after.reconciled == s.reconciled || (after.reconciled matches Some(w)
                && saw_ready_then(events, w))
            &&& match step {
                ReconcileStepModel::Observe => after == s,
                ReconcileStepModel::EnsureHub => after == s,
                ReconcileStepModel::ObserveAgain { .. } => after == s && exists|i: int|
                    0 <= i < events.len() && (#[trigger] events[i] matches ReconcileEvent::HubEnsured(
                        Ok(_),
                    )),
                ReconcileStepModel::Done { result: Ok(warnings) } => {
                    ||| after.reconciled matches Some(w) && saw_ready_then(events, w)
                    ||| after == s && (s.reconciled matches Some(w) && satisfied(w) && warnings
                        == missing_warnings(w.entries) && exists|i: int|
                        0 <= i < events.len() && #[trigger] events[i] == ReconcileEvent::Observed(
                            Ok(w),
                        ))
                },
                ReconcileStepModel::Done { result: Err(_) } => after == s,
            }
        }),
    decreases events.len(),
{
    if events.len() > 0 {
        let rest = events.drop_last();
        let last = events.len() - 1;
        law_only_a_ready_hub_is_remembered(s, rest);
        assert(events[last] == events.last());
        let (before, step) = reconcile_after(s, rest);
        assert forall|i: int| 0 <= i < rest.len() implies #[trigger] rest[i] == events[i] by {}
        assert forall|w: WitnessModel| #[trigger] saw_ready_then(rest, w) implies saw_ready_then(
            events,
            w,
        ) by {
            let (i, j) = choose|i: int, j: int|
                0 <= i < j < rest.len() && (#[trigger] rest[i] matches ReconcileEvent::HubEnsured(
                    Ok(_),
                )) && #[trigger] rest[j] == ReconcileEvent::ObservedAgain(Ok(w));
            assert(events[i] == rest[i] && events[j] == rest[j]);
        }
        match step {
            ReconcileStepModel::ObserveAgain { .. } => {
                let i = choose|i: int|
                    0 <= i < rest.len() && (#[trigger] rest[i] matches ReconcileEvent::HubEnsured(
                        Ok(_),
                    ));
                assert(events[i] == rest[i]);
            },
            ReconcileStepModel::Done { result: Ok(_) } => {
                if s.reconciled matches Some(w) && exists|i: int|
                    0 <= i < rest.len() && #[trigger] rest[i] == ReconcileEvent::Observed(Ok(w)) {
                    let w = s.reconciled->Some_0;
                    let i = choose|i: int|
                        0 <= i < rest.len() && #[trigger] rest[i] == ReconcileEvent::Observed(
                            Ok(w),
                        );
                    assert(events[i] == rest[i]);
                }
            },
            _ => {},
        }
    }
}

/// Whether no text of a list can drive the terminal.
pub open spec fn all_inert(v: Seq<Seq<char>>) -> bool {
    forall|i: int| 0 <= i < v.len() ==> inert(#[trigger] v[i])
}

/// The verdict about `bd` that a session remembers can be shown as it is.
pub proof fn law_a_remembered_verdict_is_inert(events: Seq<SessionEvent>)
    ensures
        session_after(events).compatibility matches Some(Some(message)) ==> inert(message),
    decreases events.len(),
{
    if events.len() > 0 {
        law_a_remembered_verdict_is_inert(events.drop_last());
        match events.last() {
            SessionEvent::VersionChecked { version } => lemma_gate_warning_is_inert(version),
            _ => {},
        }
    }
}

proof fn lemma_gate_warning_is_inert(version: Result<(Seq<char>, int), BdErrorModel>)
    ensures
        gate_warning(version) matches Some(w) ==> inert(w),
{
    match version {
        Ok((v, schema)) => law_sanitized_is_inert(gate_text(v, schema)),
        Err(e) => law_sanitized_is_inert("bd version check failed: "@ + bd_error_text(e)),
    }
}

proof fn lemma_refresh_warnings_are_inert(
    errors: Seq<RepoErrorModel>,
    collisions: Seq<CollisionModel>,
)
    ensures
        all_inert(refresh_warnings(errors, collisions)),
{
    let all = refresh_warnings(errors, collisions);
    assert forall|i: int| 0 <= i < all.len() implies inert(#[trigger] all[i]) by {
        if i < errors.len() {
            law_sanitized_is_inert(repo_error_text(errors[i]));
        } else {
            let c = collisions[i - errors.len()];
            assert(all[i] == collision_warning(c));
            law_sanitized_is_inert(
                "id prefix `"@ + c.prefix + "` is claimed by "@ + decimal(c.repos.len())
                    + " repos; its issues show as `"@ + UNKNOWN_REPO@ + "`"@,
            );
        }
    }
}

proof fn lemma_no_refresh_warning_is_inert(e: RefreshErrorModel)
    ensures
        inert(no_refresh_warning(e)),
{
    reveal_strlit("another fbd is refreshing this hub; keeping the current view");
    law_sanitized_is_inert("refresh failed: "@ + refresh_error_text(e));
}

/// What gathering a snapshot warns about so far.
pub open spec fn warned(wait: GatherWait) -> Seq<Seq<char>> {
    match wait {
        GatherWait::Version => seq![],
        GatherWait::Reconcile => seq![],
        GatherWait::Refresh { warnings } => warnings,
        GatherWait::Publish { warnings } => warnings,
        GatherWait::Ready { warnings } => warnings,
        GatherWait::Done { warnings } => warnings,
    }
}

/// No warning that gathering a snapshot gives can drive the terminal, whatever
/// the session has seen before and whatever the gathering meets: neither about
/// the version, found now or remembered, nor about the hub, the repositories,
/// the prefixes, the refresh, its token, or the ready issues.
pub proof fn law_warnings_are_inert(session: Seq<SessionEvent>, events: Seq<GatherEvent>)
    ensures
        all_inert(warned(gather_after(session_after(session), events))),
    decreases events.len(),
{
    if events.len() == 0 {
        law_a_remembered_verdict_is_inert(session);
    } else {
        law_warnings_are_inert(session, events.drop_last());
        let before = gather_after(session_after(session), events.drop_last());
        match events.last() {
            GatherEvent::Version(version) => lemma_gate_warning_is_inert(version),
            GatherEvent::Reconciled(Ok(w)) => {
                let shown = w.map_values(|t: Seq<char>| sanitized(t));
                assert forall|i: int| 0 <= i < shown.len() implies inert(#[trigger] shown[i]) by {
                    law_sanitized_is_inert(w[i]);
                }
            },
            GatherEvent::Reconciled(Err(e)) => law_sanitized_is_inert(
                "hub error: "@ + hub_error_text(e),
            ),
            GatherEvent::Refreshed(Ok((errors, collisions))) => {
                lemma_refresh_warnings_are_inert(errors, collisions);
                let more = refresh_warnings(errors, collisions);
                let all = warned(before) + more;
                assert forall|i: int| 0 <= i < all.len() implies inert(#[trigger] all[i]) by {
                    if i >= warned(before).len() {
                        assert(all[i] == more[i - warned(before).len()]);
                    }
                }
            },
            GatherEvent::Refreshed(Err(e)) => lemma_no_refresh_warning_is_inert(e),
            GatherEvent::Published(Err(e)) => law_sanitized_is_inert(
                "refresh failed: "@ + refresh_error_text(e),
            ),
            GatherEvent::Ready(Err(e)) => law_sanitized_is_inert(
                "reading ready list failed: "@ + bd_error_text(e),
            ),
            _ => {},
        }
    }
}

/// Each completed refresh gets a generation that no map was registered for,
/// and the maps of earlier generations stay as they were.
pub proof fn law_generations_are_never_reused(
    events: Seq<SessionEvent>,
    token: Seq<char>,
    candidate: CandidateModel,
    g: nat,
)
    requires
        is_session(events),
    ensures
        ({
            let before = session_after(events);
            let after = session_next(before, SessionEvent::Published { token, candidate });
            &&& registered(before.maps, after.next_generation) is None
            &&& registered(after.maps, after.next_generation) == Some(candidate.prefix_map)
            &&& g != after.next_generation ==> registered(after.maps, g) == registered(
                before.maps,
                g,
            )
        }),
{
    let before = session_after(events);
    let fresh = before.next_generation + 1;
    law_a_generation_keeps_its_map(events, fresh);
    law_registering_is_local(before.maps, fresh, candidate.prefix_map, g);
    law_registering_is_local(before.maps, fresh, candidate.prefix_map, fresh);
}

/// The warnings of a snapshot that was gathered to its end: those of the hub
/// first, then one for each failed repository and one for each shared prefix, all
/// in their order, and nothing else. A warning repeats its text without control
/// characters.
pub proof fn law_a_gathered_snapshot_warns_of_every_trouble(
    s: SessionModel,
    hub: Seq<Seq<char>>,
    errors: Seq<RepoErrorModel>,
    collisions: Seq<CollisionModel>,
)
    requires
        s.compatibility == Some(None::<Seq<char>>),
    ensures
        ({
            let events = seq![
                GatherEvent::Reconciled(Ok(hub)),
                GatherEvent::Refreshed(Ok((errors, collisions))),
                GatherEvent::Published(Ok(())),
                GatherEvent::Ready(Ok(())),
            ];
            let end = gather_after(s, events);
            let w = warned(end);
            &&& end is Done
            &&& w.len() == hub.len() + errors.len() + collisions.len()
            &&& forall|i: int| 0 <= i < hub.len() ==> #[trigger] w[i] == sanitized(hub[i])
            &&& forall|i: int|
                0 <= i < errors.len() ==> #[trigger] w[hub.len() + i] == sanitized(
                    repo_error_text(errors[i]),
                )
            &&& forall|i: int|
                0 <= i < collisions.len() ==> sanitized(
                    "id prefix `"@ + collisions[i].prefix + "` is claimed by "@ + decimal(
                        collisions[i].repos.len(),
                    ) + " repos"@,
                ).is_prefix_of(#[trigger] w[hub.len() + errors.len() + i])
        }),
{
    let e0 = GatherEvent::Reconciled(Ok(hub));
    let e1 = GatherEvent::Refreshed(Ok((errors, collisions)));
    let e2 = GatherEvent::Published(Ok(()));
    let e3 = GatherEvent::Ready(Ok(()));
    let none = Seq::<GatherEvent>::empty();
    assert(seq![e0, e1, e2, e3].drop_last() =~= seq![e0, e1, e2]);
    assert(seq![e0, e1, e2].drop_last() =~= seq![e0, e1]);
    assert(seq![e0, e1].drop_last() =~= seq![e0]);
    assert(seq![e0].drop_last() =~= none);
    assert(gather_after(s, none) is Reconcile);
    assert(gather_after(s, seq![e0]) is Refresh);
    assert(gather_after(s, seq![e0, e1]) is Publish);
    assert(gather_after(s, seq![e0, e1, e2]) is Ready);
    let w = warned(gather_after(s, seq![e0, e1, e2, e3]));
    reveal_strlit(" repos; its issues show as `");
    reveal_strlit(" repos");
    assert forall|i: int| 0 <= i < collisions.len() implies sanitized(
        "id prefix `"@ + collisions[i].prefix + "` is claimed by "@ + decimal(
            collisions[i].repos.len(),
        ) + " repos"@,
    ).is_prefix_of(#[trigger] w[hub.len() + errors.len() + i]) by {
        let c = collisions[i];
        assert(w[hub.len() + errors.len() + i] == collision_warning(c));
        let head = "id prefix `"@ + c.prefix + "` is claimed by "@ + decimal(c.repos.len());
        let shown = sanitized(head + " repos"@);
        let whole = collision_warning(c);
        assert(whole.take(shown.len() as int) =~= shown);
    }
}

/// Gathering goes on as long as everything succeeds, and a success adds no
/// warning of its own; the first failure ends it with one more warning, after all
/// those that there were. What is not waited for changes nothing.
pub proof fn law_the_first_failure_ends_gathering(wait: GatherWait, event: GatherEvent)
    ensures
        ({
            let next = gather_next(wait, event);
            &&& warned(wait).is_prefix_of(warned(next))
            &&& wait is Done ==> next == wait
            &&& wait is Version ==> (event matches GatherEvent::Version(v) ==> if gate_warning(v)
                is None {
                next is Reconcile
            } else {
                next is Done && warned(next).len() == 1
            })
            &&& wait is Reconcile ==> (event matches GatherEvent::Reconciled(r) ==> if r is Ok {
                next is Refresh && warned(next).len() == (r->Ok_0).len()
            } else {
                next is Done && warned(next).len() == 1
            })
            &&& wait is Refresh ==> (event matches GatherEvent::Refreshed(r) ==> if r is Ok {
                next is Publish
            } else {
                next is Done && warned(next).len() == warned(wait).len() + 1
            })
            &&& wait is Publish ==> (event matches GatherEvent::Published(r) ==> if r is Ok {
                next is Ready && warned(next) == warned(wait)
            } else {
                next is Done && warned(next).len() == warned(wait).len() + 1
            })
            &&& wait is Ready ==> (event matches GatherEvent::Ready(r) ==> next is Done && if r
                is Ok {
                warned(next) == warned(wait)
            } else {
                warned(next).len() == warned(wait).len() + 1
            })
        }),
{
    let next = gather_next(wait, event);
    let before = warned(wait);
    assert(before =~= warned(next).subrange(0, before.len() as int));
}

/// Whether `bd` fits: nothing is said of a version that is accepted, and a
/// session that found it accepted goes straight on, while one that did not says
/// so again.
pub proof fn law_an_accepted_version_is_not_mentioned(
    s: SessionModel,
    version: Result<(Seq<char>, int), BdErrorModel>,
)
    ensures
        gate_warning(version) is None <==> (version matches Ok((v, schema)) && accepted(v, schema)),
        ({
            let after = session_next(s, SessionEvent::VersionChecked { version });
            &&& gate_warning(version) is None ==> gather_start(after) is Reconcile
            &&& gate_warning(version) matches Some(message) ==> gather_start(after) is Done
                && warned(gather_start(after)) == seq![message]
            &&& after == (SessionModel { compatibility: after.compatibility, ..s })
        }),
        s.compatibility is None <==> gather_start(s) is Version,
{
}

/// Reconciling is left out exactly where the hub is as the session last left it
/// and nothing is missing in it; the missing entries of the roster are still
/// warned of. Otherwise the hub is made ready, observed again and remembered, and
/// whatever fails is the result.
pub proof fn law_reconciling_is_left_out_only_when_nothing_changed(
    s: SessionModel,
    w: WitnessModel,
    warnings: Seq<Seq<char>>,
    e: HubErrorModel,
)
    ensures
        ({
            let (same, next) = reconcile_next(
                s,
                ReconcileStepModel::Observe,
                ReconcileEvent::Observed(Ok(w)),
            );
            &&& same == s
            &&& next is Done <==> s.reconciled == Some(w) && satisfied(w)
            &&& next is Done ==> next == (ReconcileStepModel::Done {
                result: Ok(missing_warnings(w.entries)),
            })
            &&& !(next is Done) ==> next is EnsureHub
        }),
        reconcile_next(
            s,
            ReconcileStepModel::EnsureHub,
            ReconcileEvent::HubEnsured(Ok(warnings)),
        ) == (s, ReconcileStepModel::ObserveAgain { warnings }),
        reconcile_next(
            s,
            ReconcileStepModel::ObserveAgain { warnings },
            ReconcileEvent::ObservedAgain(Ok(w)),
        ) == (
            SessionModel { reconciled: Some(w), ..s },
            ReconcileStepModel::Done { result: Ok(warnings) },
        ),
        ({
            let failed = (s, ReconcileStepModel::Done { result: Err(e) });
            &&& reconcile_next(
                s,
                ReconcileStepModel::Observe,
                ReconcileEvent::Observed(Err(e)),
            ) == failed
            &&& reconcile_next(
                s,
                ReconcileStepModel::EnsureHub,
                ReconcileEvent::HubEnsured(Err(e)),
            ) == failed
            &&& reconcile_next(
                s,
                ReconcileStepModel::ObserveAgain { warnings },
                ReconcileEvent::ObservedAgain(Err(e)),
            ) == failed
        }),
{
}

/// A published refresh becomes what the hub is known by, under a generation of
/// its own, and its prefixes are the hint for the next one. A token that could
/// not be published leaves the hub unknown, so that nothing is taken as a hint.
pub proof fn law_only_a_published_refresh_is_known(
    s: SessionModel,
    token: Seq<char>,
    candidate: CandidateModel,
)
    ensures
        ({
            let after = session_next(s, SessionEvent::Published { token, candidate });
            let known = after.current->Some_0;
            &&& after.current is Some
            &&& known.token == token && known.candidate == candidate
            &&& known.generation == s.next_generation + 1
            &&& after.next_generation == known.generation
            &&& registered(after.maps, known.generation) == Some(candidate.prefix_map)
            &&& known_prefixes(after) == candidate.repos
            &&& after.compatibility == s.compatibility && after.reconciled == s.reconciled
        }),
        ({
            let after = session_next(s, SessionEvent::PublishFailed);
            &&& after.current is None
            &&& known_prefixes(after).len() == 0
            &&& after == (SessionModel { current: None, ..s })
        }),
{
    law_registering_is_local(
        s.maps,
        s.next_generation + 1,
        candidate.prefix_map,
        s.next_generation + 1,
    );
}

/// The text that is copied is handed out whole; its summary is one line of at
/// most seventy-two characters. The block is about the issue as `bd` shows it now, and
/// about the row's own where `bd` could not show it; either way it names the row's
/// repository.
pub proof fn law_a_copied_block_is_about_the_issue(
    shown: Result<IssueDetail, BdError>,
    row: RowModel,
    payload: Seq<char>,
)
    ensures
        copy_of(payload).0 == payload,
        copy_of(payload).1.len() <= 72,
        !copy_of(payload).1.contains('\n'),
        ({
            let lines = lines_of(copied_block(shown, row).0);
            let issue = match shown {
                Ok(d) => d.issue@,
                Err(_) => row.issue,
            };
            &&& lines[0] == "## "@ + sanitized(issue.title)
            &&& lines[2] == "- **id:** "@ + sanitized(issue.id)
            &&& lines[3] == "- **repo:** "@ + sanitized(row.repo_name)
        }),
{
    law_a_summary_fits(payload, COPY_SUMMARY_MAX as nat);
    law_a_block_names_the_issue_line_by_line(
        match shown {
            Ok(d) => d.issue@,
            Err(_) => row.issue,
        },
        row.repo_name,
    );
}

/// What a launch shows: the cached rows at once where there are any, and
/// otherwise the loading screen. Either way the stored choice is in force, the
/// first row shown is selected, and the first refresh is on its way.
pub proof fn law_a_launch_shows_the_cache(view: RepoFilterModel, s: SnapshotModel)
    ensures
        ({
            let cold = initial_app(view);
            let warm = with_snapshot(cold, s);
            &&& cold.view == ViewMode::Loading && cold.list.rows.len() == 0
            &&& cold.fetched_at is None && cold.stale && !cold.done
            &&& cold.filter.repo == view && cold.filter.priority == PriorityFilter::All
            &&& cold.warnings.len() == 0 && cold.search is None && cold.detail is None
            &&& warm.view == ViewMode::List
            &&& warm.list.rows == s.rows && warm.list.selection == 0
            &&& warm.fetched_at == Some(s.fetched_at)
            &&& warm.stale && warm.filter == cold.filter
        }),
{
}

/// The copied command goes to the repository of the row only where that is known,
/// is a directory and has a path that is a text; it names the hub otherwise.
/// Either way a shell reads the issue's id from its last word.
pub proof fn law_a_copied_command_goes_to_a_directory(
    p: PathsModel,
    row: RowModel,
    repo: Option<Seq<u8>>,
    is_dir: bool,
)
    ensures
        ({
            let text = copied_command(p, row, repo, is_dir).0;
            let inside = is_dir && repo is Some && valid_utf8(repo->Some_0);
            &&& inside ==> exists|place: Seq<char>, issue: Seq<char>| #[trigger]
                word_pair(place, issue) && shell_reads(place, false) == Some(
                    decode_utf8(repo->Some_0),
                ) && shell_reads(issue, false) == Some(sanitized(row.issue.id)) && text == "cd "@
                    + place + " && bd show "@ + issue
            &&& !inside ==> exists|place: Seq<char>, issue: Seq<char>| #[trigger]
                word_pair(place, issue) && shell_reads(place, false) == Some(
                    lossy_utf8(hub_path(p)),
                ) && shell_reads(issue, false) == Some(sanitized(row.issue.id)) && text == "bd -C "@
                    + place + " show "@ + issue
        }),
{
    law_the_command_names_place_and_issue(
        if is_dir {
            repo
        } else {
            None
        },
        hub_path(p),
        row.issue.id,
    );
}

/// After a failure to store a choice the interface shows it, with its reason, as
/// long as the choice is in force; after success it shows nothing new.
pub proof fn law_a_failure_to_store_is_shown(
    m: AppModel,
    repo: RepoFilterModel,
    reason: Seq<char>,
)
    ensures
        step(m, saved_message(repo, Ok(()))).0 == m,
        m.filter.repo == repo ==> {
            let shown = step(m, saved_message(repo, Err(reason))).0.notice;
            shown is Some && sanitized(reason).is_suffix_of(shown->Some_0)
        },
        m.filter.repo != repo ==> step(m, saved_message(repo, Err(reason))).0 == m,
{
    let all = sanitized("couldn't save repository view: "@ + reason);
    assert(all.skip(all.len() - reason.len()) =~= sanitized(reason));
}

/// A detail that `bd` shows is handed on as it is; a failure is told with the id
/// that was asked for and its reason.
pub proof fn law_a_detail_is_handed_on(
    shown: Result<IssueDetail, BdError>,
    id: Seq<char>,
    res: Result<Box<IssueDetail>, String>,
)
    requires
        detail_outcome(shown, id, res),
    ensures
        shown is Ok <==> res is Ok,
        shown matches Ok(d) ==> (res->Ok_0)@ == d@,
        shown matches Err(e) ==> {
            &&& sanitized("couldn't load "@ + id).is_prefix_of((res->Err_0)@)
            &&& sanitized(bd_error_text(e@)).is_suffix_of((res->Err_0)@)
        },
{
    match shown {
        Ok(_) => {},
        Err(e) => {
            let head = "couldn't load "@ + id;
            let tail = bd_error_text(e@);
            let all = (res->Err_0)@;
            assert(all.take(head.len() as int) =~= sanitized(head));
            assert(all.skip(all.len() - tail.len()) =~= sanitized(tail));
        },
    }
}

/// Pruning never forgets the map of what the hub holds, nor one that rows still
/// refer to, and keeps no other; everything else of the session stays.
pub proof fn law_pruning_forgets_only_what_nothing_refers_to(
    s: SessionModel,
    retained: Seq<nat>,
    g: nat,
)
    ensures
        ({
            let after = session_next(s, SessionEvent::Pruned { retained });
            let current = s.current is Some && (s.current->Some_0).generation == g;
            &&& after == (SessionModel { maps: after.maps, ..s })
            &&& current || retained.contains(g) ==> registered(after.maps, g) == registered(
                s.maps,
                g,
            )
            &&& !current && !retained.contains(g) ==> registered(after.maps, g) is None
        }),
{
    law_pruning_keeps_what_is_in_use(s.maps, s.current, retained, g);
}

/// The repository that a row is copied for is the one that it is shown under, by
/// the map that it was attributed with: there is one exactly where the row has a
/// repository's id, and the row's name starts with the name of its directory.
pub proof fn law_a_copy_goes_to_the_repository_shown(
    map: &PrefixMap,
    issue: IssueModel,
    issues: Seq<IssueModel>,
    generation: Option<nat>,
)
    ensures
        ({
            let row = row_of(issue, issues, map@.entries, generation);
            &&& repo_by(Some(map), row) is Some <==> row.repo_id is Some
            &&& repo_by(Some(map), row) matches Some(path) ==> base_name(path).is_prefix_of(
                row.repo_name,
            )
            &&& repo_by(None, row) is None
        }),
{
    let row = row_of(issue, issues, map@.entries, generation);
    match attributed(map@.entries, issue.id) {
        Some((prefix, path)) => {
            let name = base_name(path);
            assert(row.repo_name.take(name.len() as int) =~= name);
        },
        None => {},
    }
}

/// Registering a map gives that generation this map, and changes nothing else of
/// the session nor any other generation's map.
pub proof fn law_a_registered_map_is_found(
    s: SessionModel,
    generation: nat,
    map: PrefixMapModel,
    other: nat,
)
    ensures
        ({
            let after = session_next(s, SessionEvent::Registered { generation, map });
            &&& registered(after.maps, generation) == Some(map)
            &&& other != generation ==> registered(after.maps, other) == registered(s.maps, other)
            &&& after == (SessionModel { maps: after.maps, ..s })
        }),
{
    law_registering_is_local(s.maps, generation, map, generation);
    law_registering_is_local(s.maps, generation, map, other);
}

/// What gathering a snapshot learns is taken as it was.
pub proof fn law_news_is_taken_as_it_was(
    refreshed: Result<(RefreshOutcome, AttributionCandidate), RefreshError>,
    ready: Result<Vec<Issue>, BdError>,
    witness: Result<ReconcileWitness, HubError>,
    status: Result<HubStatus, HubError>,
    saved: Result<(), String>,
)
    ensures
        refreshed matches Ok((outcome, _)) ==> troubles(refreshed) == Ok::<
            (Seq<RepoErrorModel>, Seq<CollisionModel>),
            RefreshErrorModel,
        >((repo_errors_view(outcome.errors@), outcome.prefix_map@.collisions)),
        refreshed matches Err(e) ==> troubles(refreshed) == Err::<
            (Seq<RepoErrorModel>, Seq<CollisionModel>),
            RefreshErrorModel,
        >(e@),
        ready is Ok <==> ready_result(ready) is Ok,
        ready matches Err(e) ==> ready_result(ready) == Err::<(), BdErrorModel>(e@),
        witness matches Ok(w) ==> witness_result(witness) == Ok::<WitnessModel, HubErrorModel>(w@),
        witness matches Err(e) ==> witness_result(witness) == Err::<WitnessModel, HubErrorModel>(
            e@,
        ),
        status matches Ok(s) ==> status_result(status) == Ok::<Seq<Seq<char>>, HubErrorModel>(
            texts(s.warnings@),
        ),
        status matches Err(e) ==> status_result(status) == Err::<Seq<Seq<char>>, HubErrorModel>(e@),
        saved is Ok <==> saved_result(saved) is Ok,
        saved matches Err(m) ==> saved_result(saved) == Err::<(), Seq<char>>(m@),
{
}

} // verus!
