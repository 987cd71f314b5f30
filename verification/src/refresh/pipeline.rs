//! One refresh from the hub lock to the finished attribution, one outside
//! operation at a time.
use vstd::prelude::*;
use vstd::string::*;
use vstd::utf8::*;
use crate::bd::client::{BdClient, RepoSyncReport};
use crate::bd::error::{bd_error_text, BdError, BdErrorModel};
use crate::config::{lemma_ascii_name, Config, Paths, RepoEntry};
use crate::hub::{hub_dir, hub_path};
use crate::io::{io_result, IoFailure, IoFailureModel, IoKind};
use crate::path::{
    components, contains_path, copy_paths, holds_path, joined, law_join_adds_a_component,
    lemma_same_joined_name, paths_view, FsPath,
};
use crate::refresh::error::{
    repo_errors_view, RefreshError, RefreshErrorModel, RepoError, RepoErrorModel,
};
use crate::refresh::generation::{law_fresh_tokens_are_distinct, token_text};
use crate::refresh::prefix_map::{
    attributed, claims, id_under, law_longest_claimed_prefix_decides, map_of, pairs_view,
    PrefixMap, PrefixMapModel,
};
use crate::refresh::source::{
    copy_verified, first_occurrence, prefix_result, verified_view, SourceOutcome, SourceOutcomeModel,
    VerifiedModel, VerifiedRepoPrefix,
};
use crate::search::marker_result;
use crate::text::{decimal, decimal_text, lemma_same_numbers};
use crate::time::Timestamp;

verus! {

/// How many source workers a refresh uses.
pub const WORKER_LIMIT: usize = 4;

/// What a refresh took: times in nanoseconds, and numbers of calls.
#[derive(Debug, Clone, Copy, PartialEq, Eq, Structural)]
pub struct RefreshMetrics {
    pub source_wall: u64,
    pub sync: u64,
    pub export_calls: usize,
    pub issue_prefix_calls: usize,
}

impl Default for RefreshMetrics {
    fn default() -> (res: RefreshMetrics)
        ensures
            res == (RefreshMetrics {
                source_wall: 0,
                sync: 0,
                export_calls: 0,
                issue_prefix_calls: 0,
            }),
    {
        RefreshMetrics { source_wall: 0, sync: 0, export_calls: 0, issue_prefix_calls: 0 }
    }
}

/// A completed refresh. The failure of a repository is listed and is no
/// failure of the refresh.
#[derive(Debug)]
pub struct RefreshOutcome {
    pub prefix_map: PrefixMap,
    pub errors: Vec<RepoError>,
    pub synced_at: Timestamp,
    pub sync_report: RepoSyncReport,
    pub metrics: RefreshMetrics,
}

/// What a [`RefreshOutcome`] holds.
pub struct RefreshOutcomeModel {
    pub prefix_map: PrefixMapModel,
    pub errors: Seq<RepoErrorModel>,
    pub synced_at: int,
    pub sync_report: RepoSyncReport,
    pub metrics: RefreshMetrics,
}

impl View for RefreshOutcome {
    type V = RefreshOutcomeModel;

    open spec fn view(&self) -> RefreshOutcomeModel {
        RefreshOutcomeModel {
            prefix_map: self.prefix_map@,
            errors: repo_errors_view(self.errors@),
            synced_at: self.synced_at@,
            sync_report: self.sync_report,
            metrics: self.metrics,
        }
    }
}

/// The attribution that belongs to one synced state of the hub.
#[derive(Debug)]
pub struct AttributionCandidate {
    pub roster_paths: Vec<FsPath>,
    pub repos: Vec<VerifiedRepoPrefix>,
    pub prefix_map: PrefixMap,
}

/// What an [`AttributionCandidate`] holds.
pub struct CandidateModel {
    pub roster_paths: Seq<Seq<u8>>,
    pub repos: Seq<VerifiedModel>,
    pub prefix_map: PrefixMapModel,
}

impl View for AttributionCandidate {
    type V = CandidateModel;

    open spec fn view(&self) -> CandidateModel {
        CandidateModel {
            roster_paths: paths_view(self.roster_paths@),
            repos: verified_view(self.repos@),
            prefix_map: self.prefix_map@,
        }
    }
}

impl Clone for AttributionCandidate {
    fn clone(&self) -> (res: AttributionCandidate)
        ensures
            res@ == self@,
    {
        AttributionCandidate {
            roster_paths: copy_paths(&self.roster_paths),
            repos: copy_verified(&self.repos),
            prefix_map: self.prefix_map.clone(),
        }
    }
}

// ---------------------------------------------------------------------------
// Gathering the sources
// ---------------------------------------------------------------------------

/// `after` is `before` in the order of the roster, where outcomes of the same
/// entry keep their order.
pub open spec fn in_roster_order(before: Seq<SourceOutcome>, after: Seq<SourceOutcome>) -> bool {
    &&& after.len() == before.len()
    &&& forall|i: int, j: int|
        0 <= i < j < after.len() ==> (#[trigger] after[i]).roster_index <= (
        #[trigger] after[j]).roster_index
    &&& forall|index: usize| #[trigger]
        outcomes_of(after, index) == outcomes_of(before, index)
}

/// The outcomes of one entry of the roster.
pub open spec fn outcomes_of(outcomes: Seq<SourceOutcome>, index: usize) -> Seq<SourceOutcome> {
    outcomes.filter(|o: SourceOutcome| o.roster_index == index)
}

proof fn lemma_insert_outcome(
    before: Seq<SourceOutcome>,
    out: Seq<SourceOutcome>,
    p: int,
    item: SourceOutcome,
)
    requires
        in_roster_order(before, out),
        0 <= p <= out.len(),
        p > 0 ==> out[p - 1].roster_index <= item.roster_index,
        forall|k: int|
            p <= k < out.len() ==> item.roster_index < (#[trigger] out[k]).roster_index,
    ensures
        in_roster_order(before.push(item), out.insert(p, item)),
{
    let res = out.insert(p, item);
    assert forall|i: int, j: int| 0 <= i < j < res.len() implies (
    #[trigger] res[i]).roster_index <= (#[trigger] res[j]).roster_index by {
        if i == p {
            assert(res[j] == out[j - 1]);
        } else if j == p {
            assert(res[i] == out[i]);
            if i < p - 1 {
                assert(out[i].roster_index <= out[p - 1].roster_index);
            }
        } else {
            let oi = if i < p {
                i
            } else {
                i - 1
            };
            let oj = if j < p {
                j
            } else {
                j - 1
            };
            assert(res[i] == out[oi] && res[j] == out[oj]);
        }
    }
    assert forall|index: usize| #[trigger] outcomes_of(res, index) == outcomes_of(
        before.push(item),
        index,
    ) by {
        let pred = |o: SourceOutcome| o.roster_index == index;
        let left = out.take(p);
        let right = out.skip(p);
        assert(res =~= left.push(item) + right);
        assert(out =~= left + right);
        Seq::filter_distributes_over_add(left.push(item), right, pred);
        Seq::filter_distributes_over_add(left, right, pred);
        left.lemma_filter_push(item, pred);
        before.lemma_filter_push(item, pred);
        assert(outcomes_of(out, index) == outcomes_of(before, index));
        if pred(item) {
            assert forall|k: int| 0 <= k < right.len() implies !pred(#[trigger] right[k]) by {
                assert(right[k] == out[p + k]);
            }
            right.lemma_all_neg_filter_empty(pred);
            assert(left.filter(pred) + right.filter(pred) =~= left.filter(pred));
            assert(left.filter(pred).push(item) + right.filter(pred) =~= left.filter(pred).push(
                item,
            ));
        }
    }
}

/// Puts the outcomes of all workers in the order of the roster.
pub fn order_outcomes(outcomes: Vec<SourceOutcome>) -> (res: Vec<SourceOutcome>)
    ensures
        in_roster_order(outcomes@, res@),
{
    let ghost all = outcomes@;
    let mut rest = outcomes;
    let mut out: Vec<SourceOutcome> = Vec::new();
    assert(all.take(0) =~= Seq::<SourceOutcome>::empty());
    while rest.len() > 0
        invariant
            rest@ == all.skip(all.len() - rest@.len()),
            rest@.len() <= all.len(),
            in_roster_order(all.take(all.len() - rest@.len()), out@),
        decreases rest@.len(),
    {
        let ghost done = all.len() - rest@.len();
        let item = rest.remove(0);
        assert(item == all[done]);
        assert(rest@ =~= all.skip(done + 1));
        let mut p: usize = out.len();
        while p > 0 && item.roster_index < out[p - 1].roster_index
            invariant
                p <= out@.len(),
                forall|k: int|
                    p <= k < out@.len() ==> item.roster_index < (#[trigger] out@[k]).roster_index,
            decreases p,
        {
            p -= 1;
        }
        proof {
            lemma_insert_outcome(all.take(done), out@, p as int, item);
            assert(all.take(done + 1) =~= all.take(done).push(item));
        }
        out.insert(p, item);
    }
    assert(all.take(all.len() as int) =~= all);
    out
}

/// What a list of outcomes holds.
pub open spec fn outcomes_view(v: Seq<SourceOutcome>) -> Seq<SourceOutcomeModel> {
    v.map_values(|o: SourceOutcome| o@)
}

/// The failures of all repositories, in order.
pub open spec fn all_errors(outcomes: Seq<SourceOutcomeModel>) -> Seq<RepoErrorModel>
    decreases outcomes.len(),
{
    if outcomes.len() == 0 {
        seq![]
    } else {
        all_errors(outcomes.drop_last()) + outcomes.last().errors
    }
}

/// The claims of the repositories that have a prefix, in order.
pub open spec fn all_pairs(outcomes: Seq<SourceOutcomeModel>) -> Seq<(Seq<char>, Seq<u8>)>
    decreases outcomes.len(),
{
    if outcomes.len() == 0 {
        seq![]
    } else {
        match outcomes.last().prefix {
            Some(prefix) => all_pairs(outcomes.drop_last()).push((prefix, outcomes.last().job.path)),
            None => all_pairs(outcomes.drop_last()),
        }
    }
}

/// The verified prefixes, in order.
pub open spec fn all_verified(outcomes: Seq<SourceOutcomeModel>) -> Seq<VerifiedModel>
    decreases outcomes.len(),
{
    if outcomes.len() == 0 {
        seq![]
    } else {
        match outcomes.last().verified {
            Some(v) => all_verified(outcomes.drop_last()).push(v),
            None => all_verified(outcomes.drop_last()),
        }
    }
}

/// How many repositories were exported.
pub open spec fn exports_made(outcomes: Seq<SourceOutcomeModel>) -> nat {
    outcomes.filter(|o: SourceOutcomeModel| o.export_called).len()
}

/// For how many repositories `bd` was asked for the prefix.
pub open spec fn prefixes_asked(outcomes: Seq<SourceOutcomeModel>) -> nat {
    outcomes.filter(|o: SourceOutcomeModel| o.issue_prefix_called).len()
}

/// What all repositories together came to.
#[derive(Debug)]
pub struct Gathered {
    pub errors: Vec<RepoError>,
    pub pairs: Vec<(String, RepoEntry)>,
    pub verified: Vec<VerifiedRepoPrefix>,
    pub export_calls: usize,
    pub issue_prefix_calls: usize,
}

/// Whether the gathered results are those of some outcomes.
pub open spec fn gathers(g: Gathered, outcomes: Seq<SourceOutcomeModel>) -> bool {
    &&& repo_errors_view(g.errors@) == all_errors(outcomes)
    &&& pairs_view(g.pairs@) == all_pairs(outcomes)
    &&& verified_view(g.verified@) == all_verified(outcomes)
    &&& g.export_calls == exports_made(outcomes)
    &&& g.issue_prefix_calls == prefixes_asked(outcomes)
}

/// Whether the gathered results are those of some outcomes, in the order of the
/// roster.
pub open spec fn gathered_from(g: Gathered, outcomes: Seq<SourceOutcome>) -> bool {
    exists|ordered: Seq<SourceOutcome>| #[trigger]
        in_roster_order(outcomes, ordered) && gathers(g, outcomes_view(ordered))
}

/// Collects the failures, the claims and the verified prefixes of all
/// repositories.
pub fn gather(outcomes: Vec<SourceOutcome>) -> (res: Gathered)
    ensures
        gathers(res, outcomes_view(outcomes@)),
{
    let ghost all = outcomes_view(outcomes@);
    let ghost exported = |o: SourceOutcomeModel| o.export_called;
    let ghost asked = |o: SourceOutcomeModel| o.issue_prefix_called;
    let mut errors: Vec<RepoError> = Vec::new();
    let mut pairs: Vec<(String, RepoEntry)> = Vec::new();
    let mut verified: Vec<VerifiedRepoPrefix> = Vec::new();
    let mut export_calls: usize = 0;
    let mut issue_prefix_calls: usize = 0;
    let mut rest = outcomes;
    let len: usize = rest.len();
    let ghost total = all.len();
    assert(all.take(0) =~= Seq::<SourceOutcomeModel>::empty());
    assert(repo_errors_view(errors@) =~= all_errors(all.take(0)));
    assert(pairs_view(pairs@) =~= all_pairs(all.take(0)));
    assert(verified_view(verified@) =~= all_verified(all.take(0)));
    proof {
        all.take(0).lemma_filter_len(exported);
        all.take(0).lemma_filter_len(asked);
    }
    while rest.len() > 0
        invariant
            exported == (|o: SourceOutcomeModel| o.export_called),
            asked == (|o: SourceOutcomeModel| o.issue_prefix_called),
            total == all.len(),
            total == outcomes@.len(),
            total == len,
            rest@.len() <= total,
            outcomes_view(rest@) == all.skip(total - rest@.len()),
            repo_errors_view(errors@) == all_errors(all.take(total - rest@.len())),
            pairs_view(pairs@) == all_pairs(all.take(total - rest@.len())),
            verified_view(verified@) == all_verified(all.take(total - rest@.len())),
            export_calls == all.take(total - rest@.len()).filter(exported).len(),
            issue_prefix_calls == all.take(total - rest@.len()).filter(asked).len(),
        decreases rest@.len(),
    {
        let ghost done = total - rest@.len();
        let ghost before = rest@;
        let outcome = rest.remove(0);
        let ghost model = outcome@;
        proof {
            assert(outcomes_view(before)[0] == model);
            assert(all[done] == model);
            assert(outcomes_view(rest@) =~= all.skip(done + 1)) by {
                assert forall|k: int| 0 <= k < rest@.len() implies outcomes_view(rest@)[k]
                    == all.skip(done + 1)[k] by {
                    assert(outcomes_view(rest@)[k] == outcomes_view(before)[k + 1]);
                }
            }
            assert(all.take(done + 1).drop_last() =~= all.take(done));
            assert(all.take(done + 1).last() == model);
            assert(all.take(done + 1) =~= all.take(done).push(model));
            all.take(done).lemma_filter_push(model, exported);
            all.take(done).lemma_filter_push(model, asked);
            all.take(done).lemma_filter_len(exported);
            all.take(done).lemma_filter_len(asked);
        }
        if outcome.export_called {
            export_calls += 1;
        }
        if outcome.issue_prefix_called {
            issue_prefix_calls += 1;
        }
        let ghost old_errors = errors@;
        let ghost old_pairs = pairs@;
        let ghost old_verified = verified@;
        let mut more = outcome.errors;
        let ghost extra = more@;
        errors.append(&mut more);
        assert(repo_errors_view(errors@) =~= repo_errors_view(old_errors) + repo_errors_view(
            extra,
        ));
        match outcome.prefix {
            Some(prefix) => {
                let ghost claim = (prefix@, outcome.entry@);
                pairs.push((prefix, outcome.entry));
                assert(pairs_view(pairs@) =~= pairs_view(old_pairs).push(claim));
            },
            None => {},
        }
        match outcome.verified_prefix {
            Some(v) => {
                let ghost shown = v@;
                verified.push(v);
                assert(verified_view(verified@) =~= verified_view(old_verified).push(shown));
            },
            None => {},
        }
    }
    assert(all.take(total as int) =~= all);
    Gathered { errors, pairs, verified, export_calls, issue_prefix_calls }
}

// ---------------------------------------------------------------------------
// The steps of a refresh
// ---------------------------------------------------------------------------

/// The lock file, inside the hub.
pub open spec fn lock_file_path(hub: Seq<u8>) -> Seq<u8> {
    joined(hub, encode_utf8(".fbd.lock"@))
}

/// The generation marker, inside the hub.
pub open spec fn marker_path(hub: Seq<u8>) -> Seq<u8> {
    joined(hub, encode_utf8(".fbd-generation"@))
}

/// The lock file, inside the hub.
pub fn lock_file(hub: &FsPath) -> (res: FsPath)
    ensures
        res@ == lock_file_path(hub@),
{
    hub.join_text(".fbd.lock")
}

/// The generation marker, inside the hub.
pub fn generation_marker(hub: &FsPath) -> (res: FsPath)
    ensures
        res@ == marker_path(hub@),
{
    hub.join_text(".fbd-generation")
}

/// The file through which the generation marker is replaced.
pub open spec fn marker_temp(hub: Seq<u8>, process: nat, count: nat) -> Seq<u8> {
    joined(
        hub,
        encode_utf8(".fbd-generation."@ + decimal(process) + "."@ + decimal(count) + ".tmp"@),
    )
}

/// The file through which the generation marker is replaced.
pub fn generation_temp(hub: &FsPath, process: u32, count: u64) -> (res: FsPath)
    ensures
        res@ == marker_temp(hub@, process as nat, count as nat),
{
    let mut name = String::from_str(".fbd-generation.");
    name.append(decimal_text(process as u64).as_str());
    name.append(".");
    name.append(decimal_text(count).as_str());
    name.append(".tmp");
    hub.join_text(name.as_str())
}

/// What came of trying to lock the hub.
#[derive(Debug, PartialEq, Eq)]
pub enum LockAttempt {
    Acquired,
    /// The lock file could not be opened.
    OpenFailed(IoFailure),
    /// The lock file could not be locked.
    LockFailed(IoFailure),
}

/// What a [`LockAttempt`] holds.
pub enum LockAttemptModel {
    Acquired,
    OpenFailed(IoFailureModel),
    LockFailed(IoFailureModel),
}

impl View for LockAttempt {
    type V = LockAttemptModel;

    open spec fn view(&self) -> LockAttemptModel {
        match self {
            LockAttempt::Acquired => LockAttemptModel::Acquired,
            LockAttempt::OpenFailed(e) => LockAttemptModel::OpenFailed(e@),
            LockAttempt::LockFailed(e) => LockAttemptModel::LockFailed(e@),
        }
    }
}

/// What an attempt to lock the hub means: whether the lock is held, or an
/// error. A lock that another holder has is no error.
pub open spec fn lock_meaning(hub: Seq<u8>, attempt: LockAttemptModel) -> Result<
    bool,
    RefreshErrorModel,
> {
    match attempt {
        LockAttemptModel::Acquired => Ok(true),
        LockAttemptModel::OpenFailed(e) => Err(
            RefreshErrorModel::Lock { path: lock_file_path(hub), detail: e.message },
        ),
        LockAttemptModel::LockFailed(e) => if e.kind == IoKind::WouldBlock {
            Ok(false)
        } else {
            Err(RefreshErrorModel::Lock { path: lock_file_path(hub), detail: e.message })
        },
    }
}

/// What a result of the refresh holds.
pub open spec fn refresh_result<T>(r: Result<T, RefreshError>) -> Result<T, RefreshErrorModel> {
    match r {
        Ok(t) => Ok(t),
        Err(e) => Err(e@),
    }
}

/// Reads an attempt to lock the hub without waiting: `true` where the lock is
/// held now, `false` where another holder has it.
pub fn lock_outcome(hub: &FsPath, attempt: LockAttempt) -> (res: Result<bool, RefreshError>)
    ensures
        refresh_result(res) == lock_meaning(hub@, attempt@),
{
    match attempt {
        LockAttempt::Acquired => Ok(true),
        LockAttempt::OpenFailed(e) => Err(
            RefreshError::Lock { path: lock_file(hub), detail: e.message },
        ),
        LockAttempt::LockFailed(e) => if e.kind == IoKind::WouldBlock {
            Ok(false)
        } else {
            Err(RefreshError::Lock { path: lock_file(hub), detail: e.message })
        },
    }
}

/// What to do next in a refresh, or what it ended with.
#[derive(Debug)]
pub enum RefreshStep {
    /// Create the hub directory.
    PrepareHub { hub: FsPath },
    /// Try to lock the hub.
    Lock { hub: FsPath },
    /// Export the repositories and find out their prefixes.
    RunSources { hub: FsPath },
    /// Let `bd` sync the hub.
    Sync { hub: FsPath, gathered: Gathered },
    /// The hub is synced; the lock is still held.
    Synced { outcome: RefreshOutcome, candidate: AttributionCandidate },
    /// The refresh did not complete.
    Failed { error: RefreshError },
}

/// The first step of a refresh: the hub directory.
pub fn run(paths: &Paths) -> (res: RefreshStep)
    ensures
        res matches RefreshStep::PrepareHub { hub } && hub@ == hub_path(paths@),
        waits_for(res) == refresh_after(hub_path(paths@), seq![]),
{
    RefreshStep::PrepareHub { hub: hub_dir(paths) }
}

/// After creating the hub directory.
pub fn hub_prepared(hub: FsPath, result: Result<(), IoFailure>) -> (res: RefreshStep)
    ensures
        match io_result(result) {
            Ok(()) => res matches RefreshStep::Lock { hub: h } && h@ == hub@,
            Err(e) => res matches RefreshStep::Failed { error } && error@ == (
            RefreshErrorModel::Io { path: hub@, detail: e.message }),
        },
        waits_for(res) == refresh_next(
            hub@,
            RefreshWait::HubDir,
            RefreshEvent::HubPrepared(io_result(result)),
        ),
{
    match result {
        Ok(()) => RefreshStep::Lock { hub },
        Err(e) => RefreshStep::Failed {
            error: RefreshError::Io { path: hub, detail: e.message },
        },
    }
}

/// After trying to lock the hub: another holder ends the refresh before
/// anything is exported.
pub fn locked(hub: FsPath, attempt: LockAttempt) -> (res: RefreshStep)
    ensures
        match lock_meaning(hub@, attempt@) {
            Ok(true) => res matches RefreshStep::RunSources { hub: h } && h@ == hub@,
            Ok(false) => res matches RefreshStep::Failed { error } && error@
                == RefreshErrorModel::AlreadyRefreshing,
            Err(e) => res matches RefreshStep::Failed { error } && error@ == e,
        },
        waits_for(res) == refresh_next(
            hub@,
            RefreshWait::Lock,
            RefreshEvent::LockTried(attempt@),
        ),
{
    match lock_outcome(&hub, attempt) {
        Ok(held) => if held {
            RefreshStep::RunSources { hub }
        } else {
            RefreshStep::Failed { error: RefreshError::AlreadyRefreshing }
        },
        Err(error) => RefreshStep::Failed { error },
    }
}

/// After the work on all repositories; none where a worker panicked.
pub fn sources_run(hub: FsPath, outcomes: Option<Vec<SourceOutcome>>) -> (res: RefreshStep)
    ensures
        match outcomes {
            Some(v) => res matches RefreshStep::Sync { hub: h, gathered } && h@ == hub@
                && gathered_from(gathered, v@),
            None => res matches RefreshStep::Failed { error } && error@
                == RefreshErrorModel::WorkerPanic,
        },
        waits_for(res) == refresh_next(
            hub@,
            RefreshWait::Sources,
            RefreshEvent::SourcesRun { panicked: outcomes is None },
        ),
{
    match outcomes {
        Some(v) => {
            let ordered = order_outcomes(v);
            RefreshStep::Sync { hub, gathered: gather(ordered) }
        },
        None => RefreshStep::Failed { error: RefreshError::WorkerPanic },
    }
}

/// Whether the hub was synced.
pub open spec fn sync_result(r: Result<RepoSyncReport, BdError>) -> Result<(), BdErrorModel> {
    match r {
        Ok(_) => Ok(()),
        Err(e) => Err(e@),
    }
}

/// What a refresh came to after its sync.
pub open spec fn outcome_of(
    gathered: Gathered,
    report: RepoSyncReport,
    synced_at: int,
    source_wall: u64,
    sync_nanos: u64,
) -> RefreshOutcomeModel {
    RefreshOutcomeModel {
        prefix_map: map_of(pairs_view(gathered.pairs@)),
        errors: repo_errors_view(gathered.errors@),
        synced_at,
        sync_report: report,
        metrics: RefreshMetrics {
            source_wall,
            sync: sync_nanos,
            export_calls: gathered.export_calls,
            issue_prefix_calls: gathered.issue_prefix_calls,
        },
    }
}

/// The attribution that belongs to what was synced.
pub open spec fn candidate_of(gathered: Gathered, roster_paths: Seq<Seq<u8>>) -> CandidateModel {
    CandidateModel {
        roster_paths,
        repos: verified_view(gathered.verified@),
        prefix_map: map_of(pairs_view(gathered.pairs@)),
    }
}

/// After the one sync of the hub: its failure is the failure of the refresh.
/// `synced_at` is the time of the sync, and `source_wall` and `sync_nanos`
/// are what the work on the repositories and the sync took.
pub fn synced(
    gathered: Gathered,
    sync: Result<RepoSyncReport, BdError>,
    roster_paths: Vec<FsPath>,
    synced_at: Timestamp,
    source_wall: u64,
    sync_nanos: u64,
) -> (res: RefreshStep)
    ensures
        match sync {
            Ok(report) => {
                &&& res matches RefreshStep::Synced { outcome, candidate }
                &&& outcome@ == (RefreshOutcomeModel {
                    prefix_map: map_of(pairs_view(gathered.pairs@)),
                    errors: repo_errors_view(gathered.errors@),
                    synced_at: synced_at@,
                    sync_report: report,
                    metrics: RefreshMetrics {
                        source_wall,
                        sync: sync_nanos,
                        export_calls: gathered.export_calls,
                        issue_prefix_calls: gathered.issue_prefix_calls,
                    },
                })
                &&& candidate@ == (CandidateModel {
                    roster_paths: paths_view(roster_paths@),
                    repos: verified_view(gathered.verified@),
                    prefix_map: map_of(pairs_view(gathered.pairs@)),
                })
                &&& outcome@ == outcome_of(
                    gathered,
                    report,
                    synced_at@,
                    source_wall,
                    sync_nanos,
                )
                &&& candidate@ == candidate_of(gathered, paths_view(roster_paths@))
            },
            Err(e) => res matches RefreshStep::Failed { error } && error@
                == RefreshErrorModel::Sync(e@),
        },
        forall|hub: Seq<u8>|
            waits_for(res) == #[trigger] refresh_next(
                hub,
                RefreshWait::Sync,
                RefreshEvent::Synced(sync_result(sync)),
            ),
{
    match sync {
        Ok(sync_report) => {
            let prefix_map = PrefixMap::from_pairs(gathered.pairs);
            let outcome = RefreshOutcome {
                prefix_map: prefix_map.clone(),
                errors: gathered.errors,
                synced_at,
                sync_report,
                metrics: RefreshMetrics {
                    source_wall,
                    sync: sync_nanos,
                    export_calls: gathered.export_calls,
                    issue_prefix_calls: gathered.issue_prefix_calls,
                },
            };
            let candidate = AttributionCandidate {
                roster_paths,
                repos: gathered.verified,
                prefix_map,
            };
            RefreshStep::Synced { outcome, candidate }
        },
        Err(e) => RefreshStep::Failed { error: RefreshError::Sync(e) },
    }
}

/// What a refresh waits for.
pub enum RefreshWait {
    HubDir,
    Lock,
    Sources,
    Sync,
    Success,
    Failure(RefreshErrorModel),
}

/// What a refresh learns from outside.
pub enum RefreshEvent {
    HubPrepared(Result<(), IoFailureModel>),
    LockTried(LockAttemptModel),
    SourcesRun { panicked: bool },
    Synced(Result<(), BdErrorModel>),
}

/// What a step waits for.
pub open spec fn waits_for(step: RefreshStep) -> RefreshWait {
    match step {
        RefreshStep::PrepareHub { .. } => RefreshWait::HubDir,
        RefreshStep::Lock { .. } => RefreshWait::Lock,
        RefreshStep::RunSources { .. } => RefreshWait::Sources,
        RefreshStep::Sync { .. } => RefreshWait::Sync,
        RefreshStep::Synced { .. } => RefreshWait::Success,
        RefreshStep::Failed { error } => RefreshWait::Failure(error@),
    }
}

/// What a refresh of a hub waits for after it learned something; nothing
/// changes where it did not wait for that.
pub open spec fn refresh_next(hub: Seq<u8>, wait: RefreshWait, event: RefreshEvent) -> RefreshWait {
    match (wait, event) {
        (RefreshWait::HubDir, RefreshEvent::HubPrepared(Ok(_))) => RefreshWait::Lock,
        (RefreshWait::HubDir, RefreshEvent::HubPrepared(Err(e))) => RefreshWait::Failure(
            RefreshErrorModel::Io { path: hub, detail: e.message },
        ),
        (RefreshWait::Lock, RefreshEvent::LockTried(attempt)) => match lock_meaning(hub, attempt) {
            Ok(true) => RefreshWait::Sources,
            Ok(false) => RefreshWait::Failure(RefreshErrorModel::AlreadyRefreshing),
            Err(e) => RefreshWait::Failure(e),
        },
        (RefreshWait::Sources, RefreshEvent::SourcesRun { panicked }) => if panicked {
            RefreshWait::Failure(RefreshErrorModel::WorkerPanic)
        } else {
            RefreshWait::Sync
        },
        (RefreshWait::Sync, RefreshEvent::Synced(Ok(_))) => RefreshWait::Success,
        (RefreshWait::Sync, RefreshEvent::Synced(Err(e))) => RefreshWait::Failure(
            RefreshErrorModel::Sync(e),
        ),
        _ => wait,
    }
}

/// What a refresh waits for after some events.
pub open spec fn refresh_after(hub: Seq<u8>, events: Seq<RefreshEvent>) -> RefreshWait
    decreases events.len(),
{
    if events.len() == 0 {
        RefreshWait::HubDir
    } else {
        refresh_next(hub, refresh_after(hub, events.drop_last()), events.last())
    }
}

/// Whether some events hold that the lock was acquired.
pub open spec fn saw_lock(events: Seq<RefreshEvent>) -> bool {
    exists|i: int|
        0 <= i < events.len() && #[trigger] events[i] == RefreshEvent::LockTried(
            LockAttemptModel::Acquired,
        )
}

/// Whether some events hold that all repositories were worked on.
pub open spec fn saw_sources(events: Seq<RefreshEvent>) -> bool {
    exists|i: int|
        0 <= i < events.len() && #[trigger] events[i] == (RefreshEvent::SourcesRun {
            panicked: false,
        })
}

/// Whether some events hold that the hub was synced.
pub open spec fn saw_sync(events: Seq<RefreshEvent>) -> bool {
    exists|i: int|
        0 <= i < events.len() && (#[trigger] events[i] matches RefreshEvent::Synced(Ok(_)))
}

/// Nothing is exported before the lock is held, the hub is synced only after
/// the work on all repositories ended, and a refresh succeeds only with a sync
/// that did.
pub proof fn law_a_refresh_keeps_its_order(hub: Seq<u8>, events: Seq<RefreshEvent>)
    ensures
        refresh_after(hub, events) is Sources ==> saw_lock(events),
        refresh_after(hub, events) is Sync ==> saw_lock(events) && saw_sources(events),
        refresh_after(hub, events) is Success ==> saw_lock(events) && saw_sources(events)
            && saw_sync(events),
    decreases events.len(),
{
    if events.len() > 0 {
        let rest = events.drop_last();
        law_a_refresh_keeps_its_order(hub, rest);
        assert(events[events.len() - 1] == events.last());
        assert forall|i: int| 0 <= i < rest.len() implies #[trigger] rest[i] == events[i] by {}
        if saw_lock(rest) {
            let i = choose|i: int|
                0 <= i < rest.len() && #[trigger] rest[i] == RefreshEvent::LockTried(
                    LockAttemptModel::Acquired,
                );
            assert(events[i] == RefreshEvent::LockTried(LockAttemptModel::Acquired));
        }
        if saw_sources(rest) {
            let i = choose|i: int|
                0 <= i < rest.len() && #[trigger] rest[i] == (RefreshEvent::SourcesRun {
                    panicked: false,
                });
            assert(events[i] == (RefreshEvent::SourcesRun { panicked: false }));
        }
        if saw_sync(rest) {
            let i = choose|i: int|
                0 <= i < rest.len() && (#[trigger] rest[i] matches RefreshEvent::Synced(Ok(_)));
            assert(events[i] matches RefreshEvent::Synced(Ok(_)));
        }
    }
}

/// A refresh that is over stays over: a hub that another instance holds is
/// neither exported to nor synced, whatever happens afterwards.
pub proof fn law_a_declined_refresh_does_nothing(
    hub: Seq<u8>,
    before: Seq<RefreshEvent>,
    after: Seq<RefreshEvent>,
)
    requires
        refresh_after(hub, before) is Failure,
    ensures
        refresh_after(hub, before + after) == refresh_after(hub, before),
    decreases after.len(),
{
    let all = before + after;
    if after.len() == 0 {
        assert(all =~= before);
    } else {
        assert(all.drop_last() =~= before + after.drop_last());
        law_a_declined_refresh_does_nothing(hub, before, after.drop_last());
    }
}

// ---------------------------------------------------------------------------
// What failing repositories leave alone
// ---------------------------------------------------------------------------

/// Whether an outcome claims an id at least as closely as `prefix` does.
pub open spec fn rivals(o: SourceOutcomeModel, prefix: Seq<char>, id: Seq<char>) -> bool {
    o.prefix matches Some(other) && id_under(id, other) && other.len() >= prefix.len()
}

/// Whether an id is a prefix, `-`, and a rest without `-`.
pub open spec fn plain_id(id: Seq<char>, prefix: Seq<char>) -> bool {
    id_under(id, prefix) && forall|i: int| prefix.len() < i < id.len() ==> #[trigger] id[i] != '-'
}

/// Whether no two outcomes are of the same entry of the roster.
pub open spec fn one_outcome_each(outcomes: Seq<SourceOutcome>) -> bool {
    forall|a: int, b: int|
        0 <= a < b < outcomes.len() ==> (#[trigger] outcomes[a]).roster_index != (
        #[trigger] outcomes[b]).roster_index
}

proof fn lemma_errors_are_listed(outcomes: Seq<SourceOutcomeModel>, j: int, k: int)
    requires
        0 <= j < outcomes.len(),
        0 <= k < outcomes[j].errors.len(),
    ensures
        all_errors(outcomes).contains(outcomes[j].errors[k]),
    decreases outcomes.len(),
{
    let before = all_errors(outcomes.drop_last());
    let all = all_errors(outcomes);
    if j == outcomes.len() - 1 {
        assert(all[before.len() + k] == outcomes[j].errors[k]);
    } else {
        lemma_errors_are_listed(outcomes.drop_last(), j, k);
        let i = before.index_of(outcomes[j].errors[k]);
        assert(all[i] == before[i]);
    }
}

proof fn lemma_unclaimed(outcomes: Seq<SourceOutcomeModel>, prefix: Seq<char>)
    requires
        forall|k: int| 0 <= k < outcomes.len() ==> (#[trigger] outcomes[k]).prefix != Some(prefix),
    ensures
        claims(all_pairs(outcomes), prefix) == Seq::<Seq<u8>>::empty(),
    decreases outcomes.len(),
{
    if outcomes.len() > 0 {
        let rest = outcomes.drop_last();
        assert forall|k: int| 0 <= k < rest.len() implies (#[trigger] rest[k]).prefix != Some(
            prefix,
        ) by {
            assert(rest[k] == outcomes[k]);
        }
        lemma_unclaimed(rest, prefix);
        assert(outcomes.last() == outcomes[outcomes.len() - 1]);
        lemma_claims_step(outcomes, prefix);
    }
}

proof fn lemma_claims_step(outcomes: Seq<SourceOutcomeModel>, prefix: Seq<char>)
    requires
        outcomes.len() > 0,
    ensures
        claims(all_pairs(outcomes), prefix) == if outcomes.last().prefix == Some(prefix) {
            claims(all_pairs(outcomes.drop_last()), prefix).push(outcomes.last().job.path)
        } else {
            claims(all_pairs(outcomes.drop_last()), prefix)
        },
{
    let before = all_pairs(outcomes.drop_last());
    match outcomes.last().prefix {
        Some(p) => {
            let pair = (p, outcomes.last().job.path);
            assert(before.push(pair).drop_last() =~= before);
            assert(before.push(pair).last() == pair);
        },
        None => {},
    }
}

proof fn lemma_claimed_once(outcomes: Seq<SourceOutcomeModel>, j: int, prefix: Seq<char>)
    requires
        0 <= j < outcomes.len(),
        outcomes[j].prefix == Some(prefix),
        forall|k: int|
            0 <= k < outcomes.len() && k != j ==> (#[trigger] outcomes[k]).prefix != Some(prefix),
    ensures
        claims(all_pairs(outcomes), prefix) == seq![outcomes[j].job.path],
    decreases outcomes.len(),
{
    let rest = outcomes.drop_last();
    let last = outcomes.len() - 1;
    assert(outcomes.last() == outcomes[last]);
    lemma_claims_step(outcomes, prefix);
    assert forall|k: int| 0 <= k < rest.len() implies #[trigger] rest[k] == outcomes[k] by {}
    if j == last {
        lemma_unclaimed(rest, prefix);
    } else {
        assert(rest[j] == outcomes[j]);
        lemma_claimed_once(rest, j, prefix);
    }
}

proof fn lemma_a_claim_has_a_claimant(outcomes: Seq<SourceOutcomeModel>, prefix: Seq<char>) -> (k:
    int)
    requires
        claims(all_pairs(outcomes), prefix).len() > 0,
    ensures
        0 <= k < outcomes.len(),
        outcomes[k].prefix == Some(prefix),
    decreases outcomes.len(),
{
    lemma_claims_step(outcomes, prefix);
    if outcomes.last().prefix == Some(prefix) {
        outcomes.len() - 1
    } else {
        lemma_a_claim_has_a_claimant(outcomes.drop_last(), prefix)
    }
}

proof fn lemma_uncontested(
    outcomes: Seq<SourceOutcomeModel>,
    j: int,
    prefix: Seq<char>,
    id: Seq<char>,
)
    requires
        0 <= j < outcomes.len(),
        outcomes[j].prefix == Some(prefix),
        id_under(id, prefix),
        forall|k: int|
            0 <= k < outcomes.len() && k != j ==> !rivals(#[trigger] outcomes[k], prefix, id),
    ensures
        attributed(map_of(all_pairs(outcomes)).entries, id) == Some(
            (prefix, outcomes[j].job.path),
        ),
{
    let pairs = all_pairs(outcomes);
    assert forall|k: int| 0 <= k < outcomes.len() && k != j implies (
    #[trigger] outcomes[k]).prefix != Some(prefix) by {
        assert(!rivals(outcomes[k], prefix, id));
    }
    lemma_claimed_once(outcomes, j, prefix);
    assert forall|other: Seq<char>| #[trigger]
        claims(pairs, other).len() > 0 && id_under(id, other) implies other.len()
        <= prefix.len() by {
        let k = lemma_a_claim_has_a_claimant(outcomes, other);
        if k != j {
            assert(!rivals(outcomes[k], prefix, id));
        }
    }
    law_longest_claimed_prefix_decides(pairs, id, prefix, outcomes[j].job.path);
}

proof fn lemma_two_pass_a_filter(
    s: Seq<SourceOutcome>,
    pred: spec_fn(SourceOutcome) -> bool,
    a: int,
    b: int,
)
    requires
        0 <= a < b < s.len(),
        pred(s[a]),
        pred(s[b]),
    ensures
        s.filter(pred).len() >= 2,
    decreases s.len(),
{
    let rest = s.drop_last();
    let last = s.last();
    assert(s =~= rest.push(last));
    rest.lemma_filter_push(last, pred);
    if b == s.len() - 1 {
        assert(rest[a] == s[a]);
        rest.lemma_filter_contains(pred, a);
    } else {
        lemma_two_pass_a_filter(rest, pred, a, b);
    }
}

proof fn lemma_one_passes_a_filter(
    s: Seq<SourceOutcome>,
    pred: spec_fn(SourceOutcome) -> bool,
)
    requires
        forall|a: int, b: int|
            0 <= a < b < s.len() ==> !(pred(#[trigger] s[a]) && pred(#[trigger] s[b])),
    ensures
        s.filter(pred).len() <= 1,
    decreases s.len(),
{
    if s.len() == 0 {
        s.lemma_filter_len(pred);
    } else {
        let rest = s.drop_last();
        let last = s.last();
        assert(s =~= rest.push(last));
        rest.lemma_filter_push(last, pred);
        assert forall|a: int, b: int| 0 <= a < b < rest.len() implies !(pred(
            #[trigger] rest[a],
        ) && pred(#[trigger] rest[b])) by {
            assert(rest[a] == s[a] && rest[b] == s[b]);
        }
        lemma_one_passes_a_filter(rest, pred);
        if pred(last) {
            assert forall|k: int| 0 <= k < rest.len() implies !pred(#[trigger] rest[k]) by {
                assert(rest[k] == s[k]);
                assert(s[s.len() - 1] == last);
            }
            rest.lemma_all_neg_filter_empty(pred);
        }
    }
}

proof fn lemma_found_in(from: Seq<SourceOutcome>, to: Seq<SourceOutcome>, k: int) -> (i: int)
    requires
        0 <= k < from.len(),
        outcomes_of(from, from[k].roster_index) == outcomes_of(to, from[k].roster_index),
    ensures
        0 <= i < to.len(),
        to[i] == from[k],
{
    let index = from[k].roster_index;
    let pred = |o: SourceOutcome| o.roster_index == index;
    from.lemma_filter_contains(pred, k);
    to.lemma_filter_contains_rev(pred, from[k]);
    to.index_of(from[k])
}

proof fn lemma_order_keeps_rivals(
    outcomes: Seq<SourceOutcome>,
    ordered: Seq<SourceOutcome>,
    j: int,
    prefix: Seq<char>,
    id: Seq<char>,
) -> (i: int)
    requires
        in_roster_order(outcomes, ordered),
        one_outcome_each(outcomes),
        0 <= j < outcomes.len(),
        forall|k: int|
            0 <= k < outcomes.len() && k != j ==> !rivals((#[trigger] outcomes[k])@, prefix, id),
    ensures
        0 <= i < ordered.len(),
        ordered[i] == outcomes[j],
        forall|k: int|
            0 <= k < ordered.len() && k != i ==> !rivals((#[trigger] ordered[k])@, prefix, id),
{
    let index = outcomes[j].roster_index;
    let pred = |o: SourceOutcome| o.roster_index == index;
    assert(outcomes_of(ordered, index) == outcomes_of(outcomes, index));
    let i = lemma_found_in(outcomes, ordered, j);
    assert forall|k: int| 0 <= k < ordered.len() && k != i implies !rivals(
        (#[trigger] ordered[k])@,
        prefix,
        id,
    ) by {
        assert(outcomes_of(ordered, ordered[k].roster_index) == outcomes_of(
            outcomes,
            ordered[k].roster_index,
        ));
        let from = lemma_found_in(ordered, outcomes, k);
        if from == j {
            lemma_one_passes_a_filter(outcomes, pred);
            if k < i {
                lemma_two_pass_a_filter(ordered, pred, k, i);
            } else {
                lemma_two_pass_a_filter(ordered, pred, i, k);
            }
        }
    }
    i
}

/// A repository that fails spoils no other one. Whatever came of the sources,
/// in whichever order the workers ended: each failure of each repository is in
/// the outcome of the refresh; and an id of a repository whose prefix is known
/// resolves to that repository, unless another one claims the id as closely or
/// more closely. For an id without a further `-`, only a claim of the very same
/// prefix does so.
pub proof fn law_a_failing_repository_spoils_no_other(
    outcomes: Seq<SourceOutcome>,
    gathered: Gathered,
    refreshed: RefreshOutcomeModel,
    j: int,
    prefix: Seq<char>,
    id: Seq<char>,
)
    requires
        gathered_from(gathered, outcomes),
        refreshed.errors == repo_errors_view(gathered.errors@),
        refreshed.prefix_map == map_of(pairs_view(gathered.pairs@)),
        one_outcome_each(outcomes),
        0 <= j < outcomes.len(),
    ensures
        ({
            let o = outcomes[j]@;
            let resolves = attributed(refreshed.prefix_map.entries, id) == Some(
                (prefix, o.job.path),
            );
            &&& forall|k: int|
                0 <= k < o.errors.len() ==> refreshed.errors.contains(#[trigger] o.errors[k])
            &&& o.prefix == Some(prefix) && id_under(id, prefix) && (forall|k: int|
                0 <= k < outcomes.len() && k != j ==> !rivals(
                    (#[trigger] outcomes[k])@,
                    prefix,
                    id,
                )) ==> resolves
            &&& o.prefix == Some(prefix) && plain_id(id, prefix) && (forall|k: int|
                0 <= k < outcomes.len() && k != j ==> (#[trigger] outcomes[k])@.prefix != Some(
                    prefix,
                )) ==> resolves
        }),
{
    let ordered = choose|ordered: Seq<SourceOutcome>| #[trigger]
        in_roster_order(outcomes, ordered) && gathers(gathered, outcomes_view(ordered));
    let view = outcomes_view(ordered);
    let o = outcomes[j]@;
    assert(outcomes_of(ordered, outcomes[j].roster_index) == outcomes_of(
        outcomes,
        outcomes[j].roster_index,
    ));
    let at = lemma_found_in(outcomes, ordered, j);
    assert(view[at] == o);
    assert forall|k: int| 0 <= k < o.errors.len() implies all_errors(view).contains(
        #[trigger] o.errors[k],
    ) by {
        lemma_errors_are_listed(view, at, k);
    }
    if o.prefix == Some(prefix) && plain_id(id, prefix) && (forall|k: int|
        0 <= k < outcomes.len() && k != j ==> (#[trigger] outcomes[k])@.prefix != Some(prefix)) {
        assert forall|k: int| 0 <= k < outcomes.len() && k != j implies !rivals(
            (#[trigger] outcomes[k])@,
            prefix,
            id,
        ) by {
            if rivals(outcomes[k]@, prefix, id) {
                let other = outcomes[k]@.prefix->Some_0;
                lemma_plain_id_has_one_prefix(id, prefix, other);
            }
        }
    }
    if o.prefix == Some(prefix) && id_under(id, prefix) && (forall|k: int|
        0 <= k < outcomes.len() && k != j ==> !rivals((#[trigger] outcomes[k])@, prefix, id)) {
        let i = lemma_order_keeps_rivals(outcomes, ordered, j, prefix, id);
        assert(view[i] == o);
        assert forall|k: int| 0 <= k < view.len() && k != i implies !rivals(
            #[trigger] view[k],
            prefix,
            id,
        ) by {
            assert(view[k] == ordered[k]@);
        }
        lemma_uncontested(view, i, prefix, id);
    }
}

proof fn lemma_plain_id_has_one_prefix(id: Seq<char>, prefix: Seq<char>, other: Seq<char>)
    requires
        plain_id(id, prefix),
        id_under(id, other),
        other.len() >= prefix.len(),
    ensures
        other == prefix,
{
    let n = other.len() as int;
    assert(other.push('-')[n] == id[n]);
    if other.len() > prefix.len() {
        assert(id[n] != '-');
    }
    assert forall|i: int| 0 <= i < prefix.len() implies other[i] == prefix[i] by {
        assert(other.push('-')[i] == id[i]);
        assert(prefix.push('-')[i] == id[i]);
    }
    assert(other =~= prefix);
}

// ---------------------------------------------------------------------------
// The token and the lock around a refresh
// ---------------------------------------------------------------------------

/// After publishing a token: a refresh outside a session succeeds only with
/// one.
pub fn run_finished(outcome: RefreshOutcome, published: Result<(), RefreshError>) -> (res: Result<
    RefreshOutcome,
    RefreshError,
>)
    ensures
        match published {
            Ok(_) => res matches Ok(o) && o == outcome,
            Err(e) => res matches Err(f) && f == e,
        },
        refresh_over(res) == refresh_result(published),
{
    match published {
        Ok(_) => Ok(outcome),
        Err(e) => Err(e),
    }
}

/// How a refresh outside a session ended.
pub open spec fn refresh_over(r: Result<RefreshOutcome, RefreshError>) -> Result<
    (),
    RefreshErrorModel,
> {
    match r {
        Ok(_) => Ok(()),
        Err(e) => Err(e@),
    }
}

/// What others can see of a hub: the token beside it, and whether this refresh
/// holds its lock.
pub struct HubState {
    pub token: Option<Seq<char>>,
    pub held: bool,
}

/// What happens to a hub in the course of a refresh outside a session.
pub enum HubEvent {
    Refresh(RefreshEvent),
    /// A token was published, or could not be.
    Published { token: Seq<char>, result: Result<(), RefreshErrorModel> },
    /// The refresh let go of whatever it held.
    Released,
}

/// A hub after something happened to it.
pub open spec fn hub_next(state: HubState, event: HubEvent) -> HubState {
    match event {
        HubEvent::Refresh(RefreshEvent::LockTried(LockAttemptModel::Acquired)) => HubState {
            held: true,
            ..state
        },
        HubEvent::Published { token, result: Ok(_) } => HubState { token: Some(token), ..state },
        HubEvent::Released => HubState { held: false, ..state },
        _ => state,
    }
}

/// A hub after some events.
pub open spec fn hub_after(before: HubState, events: Seq<HubEvent>) -> HubState
    decreases events.len(),
{
    if events.len() == 0 {
        before
    } else {
        hub_next(hub_after(before, events.drop_last()), events.last())
    }
}

/// A refresh outside a session: what it learned up to the sync, and the token
/// that it then published, if it came so far.
pub struct WholeRun {
    pub refresh: Seq<RefreshEvent>,
    pub published: Option<(Seq<char>, Result<(), RefreshErrorModel>)>,
}

/// Whether a refresh outside a session went like this: a token is published
/// exactly after a sync that succeeded.
pub open spec fn is_whole_run(hub: Seq<u8>, run: WholeRun) -> bool {
    match refresh_after(hub, run.refresh) {
        RefreshWait::Success => run.published is Some,
        RefreshWait::Failure(_) => run.published is None,
        _ => false,
    }
}

/// How a refresh outside a session ended.
pub open spec fn run_over(hub: Seq<u8>, run: WholeRun) -> Result<(), RefreshErrorModel> {
    match run.published {
        Some((_, result)) => result,
        None => Err(refresh_after(hub, run.refresh)->Failure_0),
    }
}

/// All that happens to the hub in such a refresh.
pub open spec fn run_events(run: WholeRun) -> Seq<HubEvent> {
    let learned = run.refresh.map_values(|e: RefreshEvent| HubEvent::Refresh(e));
    match run.published {
        Some((token, result)) => learned.push(HubEvent::Published { token, result }).push(
            HubEvent::Released,
        ),
        None => learned.push(HubEvent::Released),
    }
}

/// Whether an attempt to lock a hub that nobody else holds can come out like
/// this: only a lock that is held has to be waited for.
pub open spec fn lock_answers(state: HubState, attempt: LockAttemptModel) -> bool {
    match attempt {
        LockAttemptModel::Acquired => !state.held,
        LockAttemptModel::OpenFailed(_) => true,
        LockAttemptModel::LockFailed(e) => e.kind == IoKind::WouldBlock ==> state.held,
    }
}

proof fn lemma_token_stays(before: HubState, refresh: Seq<RefreshEvent>)
    ensures
        hub_after(
            before,
            refresh.map_values(|e: RefreshEvent| HubEvent::Refresh(e)),
        ).token == before.token,
    decreases refresh.len(),
{
    let f = |e: RefreshEvent| HubEvent::Refresh(e);
    let events = refresh.map_values(f);
    if refresh.len() > 0 {
        lemma_token_stays(before, refresh.drop_last());
        assert(events.drop_last() =~= refresh.drop_last().map_values(f));
        assert(events.last() == f(refresh.last()));
    }
}

/// A refresh that succeeds leaves a token of its own beside the hub, which
/// differs from the one before wherever that was made in another process, at
/// another time or with another count. One that fails leaves the token as it
/// was. Either way the lock is free again: an attempt to take it does not find
/// it held.
pub proof fn law_a_refresh_leaves_its_token_and_a_free_lock(
    hub: Seq<u8>,
    run: WholeRun,
    before: HubState,
    attempt: LockAttemptModel,
    made: (nat, nat, nat),
    earlier: (nat, nat, nat),
)
    requires
        is_whole_run(hub, run),
    ensures
        ({
            let after = hub_after(before, run_events(run));
            &&& run_over(hub, run) is Ok ==> run.published is Some && after.token == Some(
                run.published->Some_0.0,
            )
            &&& run_over(hub, run) is Err ==> after.token == before.token
            &&& run_over(hub, run) is Ok && run.published->Some_0.0 == token_text(
                made.0,
                made.1,
                made.2,
            ) && before.token == Some(token_text(earlier.0, earlier.1, earlier.2)) && made
                != earlier ==> after.token != before.token
            &&& run_over(hub, run) is Ok && before.token is None ==> after.token != before.token
            &&& !after.held
            &&& lock_answers(after, attempt) && lock_meaning(hub, attempt) is Ok ==> lock_meaning(
                hub,
                attempt,
            ) == Ok::<bool, RefreshErrorModel>(true)
        }),
{
    let learned = run.refresh.map_values(|e: RefreshEvent| HubEvent::Refresh(e));
    lemma_token_stays(before, run.refresh);
    let events = run_events(run);
    match run.published {
        Some((token, result)) => {
            let published = HubEvent::Published { token, result };
            assert(events.drop_last() =~= learned.push(published));
            assert(learned.push(published).drop_last() =~= learned);
            assert(learned.push(published).last() == published);
            assert(hub_after(before, learned.push(published)) == hub_next(
                hub_after(before, learned),
                published,
            ));
        },
        None => {
            assert(events.drop_last() =~= learned);
        },
    }
    assert(events.last() == HubEvent::Released);
    assert(hub_after(before, events) == hub_next(
        hub_after(before, events.drop_last()),
        HubEvent::Released,
    ));
    if token_text(made.0, made.1, made.2) == token_text(earlier.0, earlier.1, earlier.2) {
        law_fresh_tokens_are_distinct(
            made.0,
            made.1,
            made.2,
            earlier.0,
            earlier.1,
            earlier.2,
        );
    }
}

/// Reads the outcome of publishing the generation marker.
pub fn marker_published(hub: &FsPath, result: Result<(), IoFailure>) -> (res: Result<
    (),
    RefreshError,
>)
    ensures
        match io_result(result) {
            Ok(()) => res is Ok,
            Err(e) => res matches Err(error) && error@ == (RefreshErrorModel::Generation {
                path: marker_path(hub@),
                detail: e.message,
            }),
        },
{
    match result {
        Ok(()) => Ok(()),
        Err(e) => Err(
            RefreshError::Generation { path: generation_marker(hub), detail: e.message },
        ),
    }
}

/// What to do next to publish a token, or how that ended.
#[derive(Debug)]
pub enum MarkerStep {
    /// Replace the generation marker by the token through the sibling.
    Replace { temp: FsPath, marker: FsPath },
    /// Remove what may be left of the sibling; how that goes does not matter.
    Remove { temp: FsPath, error: RefreshError },
    /// Nothing is left to do.
    Done { result: Result<(), RefreshError> },
}

/// Starts to publish a token beside a hub.
pub fn publish_hub_generation(hub: &FsPath, process: u32, count: u64) -> (res: MarkerStep)
    ensures
        res matches MarkerStep::Replace { temp, marker } && temp@ == marker_temp(
            hub@,
            process as nat,
            count as nat,
        ) && marker@ == marker_path(hub@),
{
    MarkerStep::Replace { temp: generation_temp(hub, process, count), marker: generation_marker(hub) }
}

/// After replacing the generation marker.
pub fn marker_replaced(hub: &FsPath, temp: FsPath, result: Result<(), IoFailure>) -> (res:
    MarkerStep)
    ensures
        match io_result(result) {
            Ok(()) => res matches MarkerStep::Done { result: r } && r is Ok,
            Err(e) => res matches MarkerStep::Remove { temp: t, error } && t@ == temp@ && error@ == (
            RefreshErrorModel::Generation { path: marker_path(hub@), detail: e.message }),
        },
{
    match marker_published(hub, result) {
        Ok(()) => MarkerStep::Done { result: Ok(()) },
        Err(error) => MarkerStep::Remove { temp, error },
    }
}

/// After removing what was left of the sibling.
pub fn marker_cleaned(error: RefreshError) -> (res: MarkerStep)
    ensures
        res matches MarkerStep::Done { result } && (result matches Err(e) && e == error),
{
    MarkerStep::Done { result: Err(error) }
}

/// What reading the generation marker tells: its text is the token, one that does
/// not exist is no token, and anything else is a failure.
pub open spec fn marker_found(hub: Seq<u8>, result: Result<Seq<char>, IoFailureModel>) -> Result<
    Option<Seq<char>>,
    RefreshErrorModel,
> {
    match result {
        Ok(text) => Ok(Some(text)),
        Err(e) => if e.kind == IoKind::NotFound {
            Ok(None)
        } else {
            Err(RefreshErrorModel::Generation { path: marker_path(hub), detail: e.message })
        },
    }
}

/// What reading a text came to.
pub open spec fn text_result(r: Result<String, IoFailure>) -> Result<Seq<char>, IoFailureModel> {
    match r {
        Ok(t) => Ok(t@),
        Err(e) => Err(e@),
    }
}

/// Reads the outcome of reading the generation marker: one that does not exist
/// is no token.
pub fn marker_read(hub: &FsPath, result: Result<String, IoFailure>) -> (res: Result<
    Option<crate::refresh::generation::HubGenerationToken>,
    RefreshError,
>)
    ensures
        match result {
            Ok(text) => res matches Ok(Some(token)) && token@ == text@,
            Err(e) => if e.kind == IoKind::NotFound {
                res matches Ok(None)
            } else {
                res matches Err(error) && error@ == (RefreshErrorModel::Generation {
                    path: marker_path(hub@),
                    detail: e.message@,
                })
            },
        },
        marker_result(res) == marker_found(hub@, text_result(result)),
{
    match result {
        Ok(text) => Ok(Some(crate::refresh::generation::HubGenerationToken::new(text))),
        Err(e) => if e.kind == IoKind::NotFound {
            Ok(None)
        } else {
            Err(RefreshError::Generation { path: generation_marker(hub), detail: e.message })
        },
    }
}

// ---------------------------------------------------------------------------
// Attribution without a refresh
// ---------------------------------------------------------------------------

/// The claims that the answers of `bd` for the entries of a roster make; an
/// entry without an answer makes none.
pub open spec fn answered_pairs(
    roster: Seq<Seq<u8>>,
    answers: Seq<Option<Result<Seq<char>, BdErrorModel>>>,
) -> Seq<(Seq<char>, Seq<u8>)>
    decreases answers.len(),
{
    if answers.len() == 0 {
        seq![]
    } else {
        let n = answers.len() - 1;
        let before = answered_pairs(roster, answers.drop_last());
        match answers.last() {
            Some(Ok(prefix)) => before.push((prefix, roster[n])),
            _ => before,
        }
    }
}

/// The failures among the answers of `bd` for the entries of a roster.
pub open spec fn answered_errors(
    roster: Seq<Seq<u8>>,
    answers: Seq<Option<Result<Seq<char>, BdErrorModel>>>,
) -> Seq<RepoErrorModel>
    decreases answers.len(),
{
    if answers.len() == 0 {
        seq![]
    } else {
        let n = answers.len() - 1;
        let before = answered_errors(roster, answers.drop_last());
        match answers.last() {
            Some(Err(e)) => before.push(
                RepoErrorModel::Metadata { repo: roster[n], detail: bd_error_text(e) },
            ),
            _ => before,
        }
    }
}

/// Whether an answer is one that `bd` gave for an entry, or is missing where
/// `bd` was not to be asked.
pub open spec fn answer_for<B: BdClient>(
    bd: &B,
    entry: RepoEntry,
    ask: bool,
    answer: Option<Result<Seq<char>, BdErrorModel>>,
) -> bool {
    if ask {
        exists|r: Result<String, BdError>| #[trigger]
            call_ensures(B::issue_prefix, (bd, &entry.path), r) && answer == Some(prefix_result(r))
    } else {
        answer is None
    }
}

/// Whether the answers are those that `bd` gave: one for the first entry of
/// each repository, and none for its other entries.
pub open spec fn asked_once<B: BdClient>(
    bd: &B,
    roster: Seq<RepoEntry>,
    normalized: Seq<Seq<u8>>,
    answers: Seq<Option<Result<Seq<char>, BdErrorModel>>>,
) -> bool {
    &&& answers.len() == roster.len()
    &&& forall|i: int|
        0 <= i < answers.len() ==> answer_for(
            bd,
            roster[i],
            first_occurrence(normalized, i),
            #[trigger] answers[i],
        )
}

/// Builds the prefix map of a roster by asking `bd` once for each repository,
/// without exporting, syncing or locking anything. `normalized` is what the
/// file system calls the entries. A repository whose prefix cannot be read is
/// listed and left out.
pub fn attribution_map<B: BdClient>(bd: &B, roster: &Config, normalized: &Vec<FsPath>) -> (res: (
    PrefixMap,
    Vec<RepoError>,
))
    requires
        normalized@.len() == roster.repos@.len(),
    ensures
        exists|answers: Seq<Option<Result<Seq<char>, BdErrorModel>>>| #[trigger]
            asked_once(bd, roster.repos@, paths_view(normalized@), answers) && res.0@ == map_of(
                answered_pairs(roster@, answers),
            ) && repo_errors_view(res.1@) == answered_errors(roster@, answers),
{
    let ghost names = paths_view(normalized@);
    let ghost mut answers: Seq<Option<Result<Seq<char>, BdErrorModel>>> = seq![];
    let mut pairs: Vec<(String, RepoEntry)> = Vec::new();
    let mut errors: Vec<RepoError> = Vec::new();
    let mut seen: Vec<FsPath> = Vec::new();
    let mut i: usize = 0;
    assert(paths_view(seen@) =~= names.take(0));
    assert(pairs_view(pairs@) =~= answered_pairs(roster@, answers));
    assert(repo_errors_view(errors@) =~= answered_errors(roster@, answers));
    while i < roster.repos.len()
        invariant
            i <= roster.repos@.len(),
            normalized@.len() == roster.repos@.len(),
            names == paths_view(normalized@),
            paths_view(seen@) == names.take(i as int),
            answers.len() == i,
            forall|k: int|
                0 <= k < answers.len() ==> answer_for(
                    bd,
                    roster.repos@[k],
                    first_occurrence(names, k),
                    #[trigger] answers[k],
                ),
            pairs_view(pairs@) == answered_pairs(roster@, answers),
            repo_errors_view(errors@) == answered_errors(roster@, answers),
        decreases roster.repos@.len() - i,
    {
        let ghost old_answers = answers;
        let ghost old_pairs = pairs@;
        let ghost old_errors = errors@;
        let ghost old_seen = seen@;
        let entry = &roster.repos[i];
        let known = contains_path(&seen, &normalized[i]);
        assert(names[i as int] == normalized@[i as int]@);
        assert(roster@[i as int] == entry@);
        if known {
            proof {
                answers = answers.push(None);
                assert(answers.drop_last() =~= old_answers);
            }
        } else {
            let answer = bd.issue_prefix(&entry.path);
            proof {
                let given = prefix_result(answer);
                answers = answers.push(Some(given));
                assert(answers.drop_last() =~= old_answers);
                assert(call_ensures(B::issue_prefix, (bd, &entry.path), answer));
            }
            match answer {
                Ok(prefix) => {
                    let ghost claim = (prefix@, entry@);
                    pairs.push((prefix, entry.clone()));
                    assert(pairs_view(pairs@) =~= pairs_view(old_pairs).push(claim));
                },
                Err(e) => {
                    let error = RepoError::Metadata {
                        repo: entry.path.clone(),
                        detail: e.message(),
                    };
                    let ghost shown = error@;
                    errors.push(error);
                    assert(repo_errors_view(errors@) =~= repo_errors_view(old_errors).push(shown));
                },
            }
        }
        seen.push(normalized[i].clone());
        assert(paths_view(seen@) =~= paths_view(old_seen).push(names[i as int]));
        assert(names.take(i + 1) =~= names.take(i as int).push(names[i as int]));
        assert forall|k: int| 0 <= k < answers.len() implies answer_for(
            bd,
            roster.repos@[k],
            first_occurrence(names, k),
            #[trigger] answers[k],
        ) by {
            if k < old_answers.len() {
                assert(answers[k] == old_answers[k]);
            }
        }
        i += 1;
    }
    assert(asked_once(bd, roster.repos@, names, answers));
    (PrefixMap::from_pairs(pairs), errors)
}

/// What all repositories came to is what each came to, one after the other: a
/// failure, a claim or a verified prefix is listed exactly where its repository
/// has it, and a repository without any leaves no trace.
pub proof fn law_gathering_lists_what_each_repository_came_to(
    a: Seq<SourceOutcomeModel>,
    b: Seq<SourceOutcomeModel>,
    o: SourceOutcomeModel,
)
    ensures
        all_errors(a + b) == all_errors(a) + all_errors(b),
        all_pairs(a + b) == all_pairs(a) + all_pairs(b),
        all_verified(a + b) == all_verified(a) + all_verified(b),
        exports_made(a + b) == exports_made(a) + exports_made(b),
        prefixes_asked(a + b) == prefixes_asked(a) + prefixes_asked(b),
        all_errors(seq![o]) == o.errors,
        all_pairs(seq![o]) == match o.prefix {
            Some(prefix) => seq![(prefix, o.job.path)],
            None => Seq::<(Seq<char>, Seq<u8>)>::empty(),
        },
        all_verified(seq![o]) == match o.verified {
            Some(v) => seq![v],
            None => Seq::<VerifiedModel>::empty(),
        },
        exports_made(seq![o]) == if o.export_called {
            1nat
        } else {
            0
        },
        prefixes_asked(seq![o]) == if o.issue_prefix_called {
            1nat
        } else {
            0
        },
    decreases b.len(),
{
    let exported = |x: SourceOutcomeModel| x.export_called;
    let asked = |x: SourceOutcomeModel| x.issue_prefix_called;
    let none = Seq::<SourceOutcomeModel>::empty();
    let one = seq![o];
    assert(one.drop_last() =~= none);
    assert(one =~= none.push(o));
    none.lemma_filter_len(exported);
    none.lemma_filter_len(asked);
    none.lemma_filter_push(o, exported);
    none.lemma_filter_push(o, asked);
    reveal_with_fuel(all_errors, 2);
    reveal_with_fuel(all_pairs, 2);
    reveal_with_fuel(all_verified, 2);
    assert(all_errors(one) =~= o.errors);
    assert(all_pairs(one) =~= match o.prefix {
        Some(prefix) => seq![(prefix, o.job.path)],
        None => Seq::<(Seq<char>, Seq<u8>)>::empty(),
    });
    assert(all_verified(one) =~= match o.verified {
        Some(v) => seq![v],
        None => Seq::<VerifiedModel>::empty(),
    });
    Seq::filter_distributes_over_add(a, b, exported);
    Seq::filter_distributes_over_add(a, b, asked);
    if b.len() == 0 {
        assert(a + b =~= a);
        assert(all_errors(a + b) =~= all_errors(a) + all_errors(b));
        assert(all_pairs(a + b) =~= all_pairs(a) + all_pairs(b));
        assert(all_verified(a + b) =~= all_verified(a) + all_verified(b));
    } else {
        law_gathering_lists_what_each_repository_came_to(a, b.drop_last(), o);
        assert((a + b).drop_last() =~= a + b.drop_last());
        assert((a + b).last() == b.last());
        assert(all_errors(a + b) =~= all_errors(a) + all_errors(b));
        assert(all_pairs(a + b) =~= all_pairs(a) + all_pairs(b));
        assert(all_verified(a + b) =~= all_verified(a) + all_verified(b));
    }
}

/// What an attempt to lock the hub means: the lock is held exactly where it was
/// acquired, another has it exactly where locking would have had to wait, and
/// anything else is a failure that names the lock file and gives the reason.
pub proof fn law_a_busy_lock_is_no_failure(hub: Seq<u8>, attempt: LockAttemptModel)
    ensures
        lock_meaning(hub, attempt) == Ok::<bool, RefreshErrorModel>(true) <==> attempt is Acquired,
        lock_meaning(hub, attempt) == Ok::<bool, RefreshErrorModel>(false) <==> (
        attempt matches LockAttemptModel::LockFailed(e) && e.kind == IoKind::WouldBlock),
        lock_meaning(hub, attempt) matches Err(error) ==> {
            &&& error matches RefreshErrorModel::Lock { path, detail }
            &&& path == lock_file_path(hub)
            &&& match attempt {
                LockAttemptModel::OpenFailed(e) => detail == e.message,
                LockAttemptModel::LockFailed(e) => detail == e.message,
                LockAttemptModel::Acquired => false,
            }
        },
{
}

/// A refresh fails only where something failed, with that failure as its end:
/// each step that succeeds leads to the next one, and four that do complete it.
pub proof fn law_a_refresh_without_failures_completes(hub: Seq<u8>, event: RefreshEvent)
    ensures
        refresh_next(hub, RefreshWait::HubDir, RefreshEvent::HubPrepared(Ok(()))) is Lock,
        refresh_next(hub, RefreshWait::Lock, RefreshEvent::LockTried(LockAttemptModel::Acquired))
            is Sources,
        refresh_next(hub, RefreshWait::Sources, RefreshEvent::SourcesRun { panicked: false })
            is Sync,
        refresh_next(hub, RefreshWait::Sync, RefreshEvent::Synced(Ok(()))) is Success,
        refresh_next(hub, RefreshWait::Success, event) is Success,
        refresh_next(hub, RefreshWait::HubDir, event) matches RefreshWait::Failure(error) ==> (
        event matches RefreshEvent::HubPrepared(Err(e)) && error == (RefreshErrorModel::Io {
            path: hub,
            detail: e.message,
        })),
        refresh_next(hub, RefreshWait::Lock, event) matches RefreshWait::Failure(error) ==> (
        event matches RefreshEvent::LockTried(attempt) && !(attempt is Acquired)),
        refresh_next(hub, RefreshWait::Sources, event) matches RefreshWait::Failure(error)
            ==> event == (RefreshEvent::SourcesRun { panicked: true }) && error
            == RefreshErrorModel::WorkerPanic,
        refresh_next(hub, RefreshWait::Sync, event) matches RefreshWait::Failure(error) ==> (
        event matches RefreshEvent::Synced(Err(e)) && error == RefreshErrorModel::Sync(e)),
{
}

proof fn lemma_answers_by_entry(
    roster: Seq<Seq<u8>>,
    other: Seq<Seq<u8>>,
    answers: Seq<Option<Result<Seq<char>, BdErrorModel>>>,
)
    requires
        answers.len() <= roster.len(),
        answers.len() <= other.len(),
        forall|i: int| 0 <= i < answers.len() ==> roster[i] == other[i],
    ensures
        answered_pairs(roster, answers) == answered_pairs(other, answers),
        answered_errors(roster, answers) == answered_errors(other, answers),
    decreases answers.len(),
{
    if answers.len() > 0 {
        lemma_answers_by_entry(roster, other, answers.drop_last());
    }
}

/// Each entry that `bd` was asked about gives either a claim of its prefix or a
/// failure that names it and gives the reason; an entry that it was not asked
/// about gives neither.
pub proof fn law_every_answer_is_a_claim_or_a_failure(
    roster: Seq<Seq<u8>>,
    answers: Seq<Option<Result<Seq<char>, BdErrorModel>>>,
    entry: Seq<u8>,
    answer: Option<Result<Seq<char>, BdErrorModel>>,
)
    requires
        roster.len() == answers.len(),
    ensures
        ({
            let pairs = answered_pairs(roster, answers);
            let errors = answered_errors(roster, answers);
            let more = answered_pairs(roster.push(entry), answers.push(answer));
            let failed = answered_errors(roster.push(entry), answers.push(answer));
            match answer {
                None => more == pairs && failed == errors,
                Some(Ok(prefix)) => more == pairs.push((prefix, entry)) && failed == errors,
                Some(Err(e)) => more == pairs && failed == errors.push(
                    RepoErrorModel::Metadata { repo: entry, detail: bd_error_text(e) },
                ),
            }
        }),
{
    assert(answers.push(answer).drop_last() =~= answers);
    lemma_answers_by_entry(roster.push(entry), roster, answers);
}

/// The lock and the marker lie directly in the hub, under names of their own.
pub proof fn law_lock_and_marker_lie_in_the_hub(hub: Seq<u8>)
    ensures
        components(lock_file_path(hub)) == components(hub).push(encode_utf8(".fbd.lock"@)),
        components(marker_path(hub)) == components(hub).push(encode_utf8(".fbd-generation"@)),
{
    reveal_strlit(".fbd.lock");
    reveal_strlit(".fbd-generation");
    lemma_ascii_name(".fbd.lock"@);
    lemma_ascii_name(".fbd-generation"@);
    law_join_adds_a_component(hub, encode_utf8(".fbd.lock"@));
    law_join_adds_a_component(hub, encode_utf8(".fbd-generation"@));
}

/// The marker is never replaced through the same file twice: another process or
/// another count means another file.
pub proof fn law_marker_files_are_distinct(hub: Seq<u8>, p: nat, c: nat, q: nat, d: nat)
    requires
        marker_temp(hub, p, c) == marker_temp(hub, q, d),
    ensures
        p == q,
        c == d,
{
    let head = ".fbd-generation."@;
    let a = head + decimal(p) + "."@ + decimal(c) + ".tmp"@;
    let b = head + decimal(q) + "."@ + decimal(d) + ".tmp"@;
    reveal_strlit(".fbd-generation.");
    lemma_same_joined_name(hub, a, b);
    lemma_same_numbers(head, p, c, q, d);
}

proof fn lemma_count_among(
    s: Seq<SourceOutcome>,
    pred: spec_fn(SourceOutcome) -> bool,
    x: SourceOutcome,
)
    requires
        pred(x),
    ensures
        s.filter(pred).to_multiset().count(x) == s.to_multiset().count(x),
    decreases s.len(),
{
    broadcast use vstd::seq_lib::group_to_multiset_ensures;

    if s.len() == 0 {
        s.lemma_all_neg_filter_empty(pred);
        assert(s.filter(pred) =~= s);
    } else {
        let rest = s.drop_last();
        lemma_count_among(rest, pred, x);
        rest.lemma_filter_push(s.last(), pred);
        assert(s =~= rest.push(s.last()));
    }
}

/// However the workers finish, the outcomes come in the order of the roster, and
/// none of them is lost, changed or listed twice.
pub proof fn law_outcomes_come_in_the_order_of_the_roster(
    before: Seq<SourceOutcome>,
    after: Seq<SourceOutcome>,
    i: int,
    j: int,
)
    requires
        in_roster_order(before, after),
        0 <= i < j < after.len(),
    ensures
        after[i].roster_index <= after[j].roster_index,
        after.to_multiset() == before.to_multiset(),
{
    assert forall|x: SourceOutcome| #[trigger] after.to_multiset().count(x)
        == before.to_multiset().count(x) by {
        let pred = |o: SourceOutcome| o.roster_index == x.roster_index;
        assert(outcomes_of(after, x.roster_index) == outcomes_of(before, x.roster_index));
        lemma_count_among(after, pred, x);
        lemma_count_among(before, pred, x);
    }
    assert(after.to_multiset() =~= before.to_multiset());
}

/// A refresh reports every failure of every repository, attributes by every
/// prefix that one of them has, and keeps every prefix that was verified. The
/// outcome and the attribution that belongs to it rest on the same map, and the
/// calls are counted by repository.
pub proof fn law_a_refresh_reports_what_its_repositories_came_to(
    g: Gathered,
    outcomes: Seq<SourceOutcomeModel>,
    report: RepoSyncReport,
    synced_at: int,
    source_wall: u64,
    sync_nanos: u64,
    roster_paths: Seq<Seq<u8>>,
)
    requires
        gathers(g, outcomes),
    ensures
        ({
            let outcome = outcome_of(g, report, synced_at, source_wall, sync_nanos);
            let candidate = candidate_of(g, roster_paths);
            &&& outcome.errors == all_errors(outcomes)
            &&& outcome.prefix_map == map_of(all_pairs(outcomes))
            &&& outcome.synced_at == synced_at && outcome.sync_report == report
            &&& outcome.metrics.export_calls == exports_made(outcomes)
            &&& outcome.metrics.issue_prefix_calls == prefixes_asked(outcomes)
            &&& outcome.metrics.source_wall == source_wall && outcome.metrics.sync == sync_nanos
            &&& candidate.prefix_map == outcome.prefix_map
            &&& candidate.repos == all_verified(outcomes)
            &&& candidate.roster_paths == roster_paths
        }),
{
}

/// `bd` is asked about each repository once, at its first entry: exactly those
/// entries have an answer.
pub proof fn law_each_repository_is_asked_about_once<B: BdClient>(
    bd: &B,
    roster: Seq<RepoEntry>,
    normalized: Seq<Seq<u8>>,
    answers: Seq<Option<Result<Seq<char>, BdErrorModel>>>,
    i: int,
)
    requires
        asked_once(bd, roster, normalized, answers),
        normalized.len() == roster.len(),
        0 <= i < answers.len(),
    ensures
        answers[i] is None <==> exists|k: int|
            0 <= k < i && components(#[trigger] normalized[k]) == components(normalized[i]),
{
    assert(answer_for(bd, roster[i], first_occurrence(normalized, i), answers[i]));
    let before = normalized.take(i);
    if holds_path(before, normalized[i]) {
        let k = choose|k: int|
            0 <= k < before.len() && components(#[trigger] before[k]) == components(normalized[i]);
        assert(before[k] == normalized[k]);
    }
    if exists|k: int|
        0 <= k < i && components(#[trigger] normalized[k]) == components(normalized[i]) {
        let k = choose|k: int|
            0 <= k < i && components(#[trigger] normalized[k]) == components(normalized[i]);
        assert(before[k] == normalized[k]);
    }
}

/// What a refresh and its parts came to is told as it was.
pub proof fn law_ends_are_told_as_they_were(
    synced: Result<RepoSyncReport, BdError>,
    over: Result<RefreshOutcome, RefreshError>,
    text: Result<String, IoFailure>,
    locked: Result<bool, RefreshError>,
)
    ensures
        synced is Ok <==> sync_result(synced) is Ok,
        synced matches Err(e) ==> sync_result(synced) == Err::<(), BdErrorModel>(e@),
        over is Ok <==> refresh_over(over) is Ok,
        over matches Err(e) ==> refresh_over(over) == Err::<(), RefreshErrorModel>(e@),
        text matches Ok(t) ==> text_result(text) == Ok::<Seq<char>, IoFailureModel>(t@),
        text matches Err(e) ==> text_result(text) == Err::<Seq<char>, IoFailureModel>(e@),
        locked matches Ok(held) ==> refresh_result(locked) == Ok::<bool, RefreshErrorModel>(held),
        locked matches Err(e) ==> refresh_result(locked) == Err::<bool, RefreshErrorModel>(e@),
{
}

/// What is said of a refresh and of the attribution that belongs to it is what
/// they hold, each part in its own place.
pub proof fn law_a_refresh_is_told_as_it_is(
    outcome: RefreshOutcome,
    candidate: AttributionCandidate,
)
    ensures
        outcome@.prefix_map == outcome.prefix_map@,
        outcome@.errors.len() == outcome.errors@.len(),
        outcome@.synced_at == outcome.synced_at@,
        outcome@.sync_report == outcome.sync_report,
        outcome@.metrics == outcome.metrics,
        candidate@.prefix_map == candidate.prefix_map@,
        candidate@.roster_paths.len() == candidate.roster_paths@.len(),
        candidate@.repos.len() == candidate.repos@.len(),
{
}

} // verus!
