//! A search of the hub, one outside operation at a time.
//!
//! The hub is asked only while it is known to hold what this session last
//! synced: there has to be a verified attribution, then the hub's lock has to
//! be free, and then the token beside the hub has to be that of the
//! attribution. The values that lead from one check to the next can be made by
//! the check before only.
use vstd::prelude::*;
use vstd::string::*;
use crate::app::messages::{Msg, MsgModel};
use crate::app::model::{step, AppModel, SearchPhaseModel};
use crate::bd::client::BdClient;
use crate::bd::error::{bd_error_text, BdError};
use crate::bd::types::{issues_view, Issue};
use crate::config::{Paths, PathsModel};
use crate::hub::{hub_dir, hub_path};
use crate::io::{IoFailureModel, IoKind};
use crate::path::FsPath;
use crate::refresh::error::{refresh_error_text, RefreshError, RefreshErrorModel};
use crate::refresh::generation::HubGenerationToken;
use crate::refresh::pipeline::{
    lock_meaning, lock_outcome, marker_found, marker_path, CandidateModel, LockAttempt,
    LockAttemptModel,
};
use crate::runtime::{
    prefixed, session_next, AttributionModel, RuntimeRefreshState, SessionEvent, SessionModel,
    VerifiedAttribution,
};
use crate::snapshot::{
    attribute_with_generation, attributed_snapshot, law_a_snapshot_shows_every_issue,
    law_every_row_is_of_its_issue, row_of, rows_view, Row, RowModel, SnapshotModel,
};
use crate::text::sanitized;
use crate::time::Timestamp;

verus! {

/// What a search is about: the hub, and the attribution that belongs to what
/// this session last synced there.
pub struct SearchModel {
    pub hub: Seq<u8>,
    pub verified: AttributionModel,
}

/// A search in a session that has a verified attribution.
#[derive(Debug)]
pub struct PendingSearch {
    hub: FsPath,
    verified: VerifiedAttribution,
}

impl View for PendingSearch {
    type V = SearchModel;

    closed spec fn view(&self) -> SearchModel {
        SearchModel { hub: self.hub@, verified: self.verified@ }
    }
}

impl PendingSearch {
    /// The hub to lock.
    pub fn hub(&self) -> (res: &FsPath)
        ensures
            res@ == self@.hub,
    {
        &self.hub
    }
}

/// A search that holds the hub's lock.
#[derive(Debug)]
pub struct LockedSearch {
    search: PendingSearch,
}

impl View for LockedSearch {
    type V = SearchModel;

    closed spec fn view(&self) -> SearchModel {
        self.search@
    }
}

/// A search that holds the hub's lock and has found the token of its
/// attribution beside the hub.
#[derive(Debug)]
pub struct AllowedSearch {
    search: PendingSearch,
    marker: HubGenerationToken,
}

impl View for AllowedSearch {
    type V = SearchModel;

    closed spec fn view(&self) -> SearchModel {
        self.search@
    }
}

impl AllowedSearch {
    #[verifier::type_invariant]
    spec fn marker_is_its_own(self) -> bool {
        self.marker@ == self.search@.verified.token
    }

    /// The token that was found beside the hub: that of the attribution.
    pub fn marker(&self) -> (res: &HubGenerationToken)
        ensures
            res@ == self@.verified.token,
    {
        proof {
            use_type_invariant(self);
        }
        &self.marker
    }
}

/// What a search does next.
#[derive(Debug)]
pub enum SearchStep {
    /// Try to lock the hub.
    Lock { search: PendingSearch },
    /// Read the token beside the hub, with the lock held.
    ReadMarker { search: LockedSearch },
    /// Ask `bd`, with the lock held.
    Query { search: AllowedSearch },
    /// Nothing more: the hub is not asked.
    Refused { message: String },
}

/// What a [`SearchStep`] holds.
pub enum SearchStepModel {
    Lock { search: SearchModel },
    ReadMarker { search: SearchModel },
    Query { search: SearchModel },
    Refused { message: Seq<char> },
}

impl View for SearchStep {
    type V = SearchStepModel;

    open spec fn view(&self) -> SearchStepModel {
        match self {
            SearchStep::Lock { search } => SearchStepModel::Lock { search: search@ },
            SearchStep::ReadMarker { search } => SearchStepModel::ReadMarker { search: search@ },
            SearchStep::Query { search } => SearchStepModel::Query { search: search@ },
            SearchStep::Refused { message } => SearchStepModel::Refused { message: message@ },
        }
    }
}

/// What came of a step of a search.
pub enum SearchEvent {
    LockTried(LockAttemptModel),
    MarkerRead(Result<Option<Seq<char>>, RefreshErrorModel>),
}

/// The first step of a search in a session.
pub open spec fn search_start(s: SessionModel, p: PathsModel) -> SearchStepModel {
    match s.current {
        Some(verified) => SearchStepModel::Lock {
            search: SearchModel { hub: hub_path(p), verified },
        },
        None => SearchStepModel::Refused {
            message: "search unavailable until a verified refresh completes"@,
        },
    }
}

/// The step after an outcome. An outcome of something else than what was
/// asked for changes nothing.
pub open spec fn search_next(step: SearchStepModel, event: SearchEvent) -> SearchStepModel {
    match (step, event) {
        (SearchStepModel::Lock { search }, SearchEvent::LockTried(attempt)) => {
            match lock_meaning(search.hub, attempt) {
                Ok(true) => SearchStepModel::ReadMarker { search },
                Ok(false) => SearchStepModel::Refused {
                    message: "search unavailable while another fbd is refreshing; retry shortly"@,
                },
                Err(e) => SearchStepModel::Refused {
                    message: sanitized("search failed: "@ + refresh_error_text(e)),
                },
            }
        },
        (SearchStepModel::ReadMarker { search }, SearchEvent::MarkerRead(marker)) => match marker {
            Ok(found) => if found == Some(search.verified.token) {
                SearchStepModel::Query { search }
            } else {
                SearchStepModel::Refused {
                    message: "hub changed in another fbd process; refresh required"@,
                }
            },
            Err(e) => SearchStepModel::Refused {
                message: sanitized("search failed: "@ + refresh_error_text(e)),
            },
        },
        _ => step,
    }
}

/// The step of a search after some events.
pub open spec fn search_after(s: SessionModel, p: PathsModel, events: Seq<SearchEvent>)
    -> SearchStepModel
    decreases events.len(),
{
    if events.len() == 0 {
        search_start(s, p)
    } else {
        search_next(search_after(s, p, events.drop_last()), events.last())
    }
}

/// Starts a search: this session has to know what the hub holds.
pub fn start_search(state: &RuntimeRefreshState, paths: &Paths) -> (res: SearchStep)
    ensures
        res@ == search_start(state@, paths@),
{
    match state.current_hub() {
        Some(verified) => SearchStep::Lock {
            search: PendingSearch { hub: hub_dir(paths), verified: verified.clone() },
        },
        None => SearchStep::Refused {
            message: String::from_str("search unavailable until a verified refresh completes"),
        },
    }
}

/// After trying to lock the hub.
pub fn search_locked(search: PendingSearch, attempt: LockAttempt) -> (res: SearchStep)
    ensures
        res@ == search_next(
            SearchStepModel::Lock { search: search@ },
            SearchEvent::LockTried(attempt@),
        ),
{
    match lock_outcome(&search.hub, attempt) {
        Ok(held) => if held {
            SearchStep::ReadMarker { search: LockedSearch { search } }
        } else {
            SearchStep::Refused {
                message: String::from_str(
                    "search unavailable while another fbd is refreshing; retry shortly",
                ),
            }
        },
        Err(e) => SearchStep::Refused { message: prefixed("search failed: ", e.message().as_str()) },
    }
}

/// What reading the token beside the hub came to.
pub open spec fn marker_result(r: Result<Option<HubGenerationToken>, RefreshError>) -> Result<
    Option<Seq<char>>,
    RefreshErrorModel,
> {
    match r {
        Ok(Some(token)) => Ok(Some(token@)),
        Ok(None) => Ok(None),
        Err(e) => Err(e@),
    }
}

/// After reading the token beside the hub: another one, or none, means that the
/// hub no longer holds what the attribution is about.
pub fn search_marker(
    search: LockedSearch,
    marker: Result<Option<HubGenerationToken>, RefreshError>,
) -> (res: SearchStep)
    ensures
        res@ == search_next(
            SearchStepModel::ReadMarker { search: search@ },
            SearchEvent::MarkerRead(marker_result(marker)),
        ),
{
    let found = match marker {
        Ok(found) => found,
        Err(e) => return SearchStep::Refused {
            message: prefixed("search failed: ", e.message().as_str()),
        },
    };
    match found {
        Some(token) => if token.same(&search.search.verified.hub_token) {
            SearchStep::Query { search: AllowedSearch { search: search.search, marker: token } }
        } else {
            changed()
        },
        None => changed(),
    }
}

fn changed() -> (res: SearchStep)
    ensures
        res@ == (SearchStepModel::Refused {
            message: "hub changed in another fbd process; refresh required"@,
        }),
{
    SearchStep::Refused {
        message: String::from_str("hub changed in another fbd process; refresh required"),
    }
}

/// What a search came to: the rows, attributed by the map that belongs to what
/// the hub holds and stamped with its generation, and that attribution; or a
/// message.
pub open spec fn search_outcome(
    found: Result<Vec<Issue>, BdError>,
    verified: AttributionModel,
    now: int,
    res: Result<(Vec<Row>, VerifiedAttribution), String>,
) -> bool {
    match found {
        Ok(issues) => res matches Ok((rows, v)) && v@ == verified && attributed_snapshot(
            issues_view(issues@),
            verified.candidate.prefix_map.entries,
            Some(verified.generation),
            now,
            SnapshotModel { rows: rows_view(rows@), fetched_at: now },
        ),
        Err(e) => res matches Err(m) && m@ == sanitized("search failed: "@ + bd_error_text(e@)),
    }
}

/// After `bd` answered a search.
pub fn search_found(search: AllowedSearch, found: Result<Vec<Issue>, BdError>, now: Timestamp)
    -> (res: Result<(Vec<Row>, VerifiedAttribution), String>)
    ensures
        search_outcome(found, search@.verified, now@, res),
{
    let verified = search.search.verified;
    match found {
        Ok(issues) => {
            let snapshot = attribute_with_generation(
                issues,
                &verified.candidate.prefix_map,
                now,
                verified.generation,
            );
            Ok((snapshot.rows, verified))
        },
        Err(e) => Err(prefixed("search failed: ", e.message().as_str())),
    }
}

/// Runs the query of a search that is allowed, with one `bd search` call.
pub fn run_search<B: BdClient>(bd: &B, query: &str, search: AllowedSearch, now: Timestamp) -> (res:
    Result<(Vec<Row>, VerifiedAttribution), String>)
    ensures
        exists|hub: FsPath, found: Result<Vec<Issue>, BdError>|
            hub@ == search@.hub && #[trigger] call_ensures(B::search, (bd, &hub, query), found)
                && search_outcome(found, search@.verified, now@, res),
{
    let hub = search.search.hub.clone();
    let found = bd.search(&hub, query);
    search_found(search, found, now)
}

/// The message that answers a request to search.
pub open spec fn search_answer(token: u64, result: Result<Seq<RowModel>, Seq<char>>) -> MsgModel {
    MsgModel::SearchResults { token, rows: result }
}

/// What a search came to, as far as the interface is told.
pub open spec fn told(result: Result<(Vec<Row>, VerifiedAttribution), String>) -> Result<
    Seq<RowModel>,
    Seq<char>,
> {
    match result {
        Ok((rows, _)) => Ok(rows_view(rows@)),
        Err(message) => Err(message@),
    }
}

/// The message that ends a search, which tells the request that it answers; and
/// the attribution of its rows, where there are any.
pub fn search_message(token: u64, result: Result<(Vec<Row>, VerifiedAttribution), String>) -> (res:
    (Msg, Option<VerifiedAttribution>))
    ensures
        match result {
            Ok((rows, verified)) => res.0@ == (MsgModel::SearchResults {
                token,
                rows: Ok(rows_view(rows@)),
            }) && (res.1 matches Some(v) && v@ == verified@),
            Err(message) => res.0@ == (MsgModel::SearchResults { token, rows: Err(message@) })
                && res.1 is None,
        },
        res.0@ == search_answer(token, told(result)),
{
    match result {
        Ok((rows, verified)) => (Msg::SearchResults { token, rows: Ok(rows) }, Some(verified)),
        Err(message) => (Msg::SearchResults { token, rows: Err(message) }, None),
    }
}

/// Why a search does not come to a query, given what came of each check; none
/// where it does. A check that is not come to does not matter.
pub open spec fn search_refusal(
    s: SessionModel,
    p: PathsModel,
    attempt: LockAttemptModel,
    marker: Result<Option<Seq<char>>, RefreshErrorModel>,
) -> Option<Seq<char>> {
    match s.current {
        None => Some("search unavailable until a verified refresh completes"@),
        Some(verified) => match lock_meaning(hub_path(p), attempt) {
            Ok(true) => match marker {
                Ok(found) => if found == Some(verified.token) {
                    None
                } else {
                    Some("hub changed in another fbd process; refresh required"@)
                },
                Err(e) => Some(sanitized("search failed: "@ + refresh_error_text(e))),
            },
            Ok(false) => Some(
                "search unavailable while another fbd is refreshing; retry shortly"@,
            ),
            Err(e) => Some(sanitized("search failed: "@ + refresh_error_text(e))),
        },
    }
}

/// A search comes to its query exactly when the session has a verified
/// attribution, the lock was acquired, and the token beside the hub is that of
/// the attribution; it is refused with the reason of the first check that fails
/// otherwise. The query is about the hub of the session and that attribution.
pub proof fn law_a_search_asks_only_the_hub_it_knows(
    s: SessionModel,
    p: PathsModel,
    attempt: LockAttemptModel,
    marker: Result<Option<Seq<char>>, RefreshErrorModel>,
)
    ensures
        ({
            let events = seq![SearchEvent::LockTried(attempt), SearchEvent::MarkerRead(marker)];
            let end = search_after(s, p, events);
            match search_refusal(s, p, attempt, marker) {
                Some(message) => end == (SearchStepModel::Refused { message }),
                None => s.current is Some && end == (SearchStepModel::Query {
                    search: SearchModel { hub: hub_path(p), verified: s.current->Some_0 },
                }),
            }
        }),
        search_refusal(s, p, attempt, marker) is None <==> {
            &&& s.current is Some
            &&& attempt is Acquired
            &&& marker == Ok::<Option<Seq<char>>, RefreshErrorModel>(
                Some((s.current->Some_0).token),
            )
        },
{
    let first = seq![SearchEvent::LockTried(attempt)];
    let events = seq![SearchEvent::LockTried(attempt), SearchEvent::MarkerRead(marker)];
    assert(events.drop_last() =~= first);
    assert(first.drop_last() =~= seq![]);
    assert(search_after(s, p, first.drop_last()) == search_start(s, p));
    assert(search_after(s, p, first) == search_next(
        search_start(s, p),
        SearchEvent::LockTried(attempt),
    ));
}

/// Whether some events hold that the lock was acquired and, later, that this
/// token was found beside the hub.
pub open spec fn saw_lock_then_token(events: Seq<SearchEvent>, token: Seq<char>) -> bool {
    exists|i: int, j: int|
        0 <= i < j < events.len() && #[trigger] events[i] == SearchEvent::LockTried(
            LockAttemptModel::Acquired,
        ) && #[trigger] events[j] == SearchEvent::MarkerRead(Ok(Some(token)))
}

/// Whatever happens in the course of a search, and in whichever order: the query
/// is come to only after the lock was acquired and then the token of the
/// session's attribution was found, and it stays about that hub and that
/// attribution. A stale attribution fails closed.
pub proof fn law_a_query_comes_after_lock_and_token(
    s: SessionModel,
    p: PathsModel,
    events: Seq<SearchEvent>,
)
    ensures
        match search_after(s, p, events) {
            SearchStepModel::Lock { search } => s.current == Some(search.verified) && search.hub
                == hub_path(p),
            SearchStepModel::ReadMarker { search } => s.current == Some(search.verified)
                && search.hub == hub_path(p) && exists|i: int|
                0 <= i < events.len() && #[trigger] events[i] == SearchEvent::LockTried(
                    LockAttemptModel::Acquired,
                ),
            SearchStepModel::Query { search } => s.current == Some(search.verified) && search.hub
                == hub_path(p) && saw_lock_then_token(events, search.verified.token),
            SearchStepModel::Refused { .. } => true,
        },
    decreases events.len(),
{
    if events.len() > 0 {
        let rest = events.drop_last();
        let last = events.len() - 1;
        law_a_query_comes_after_lock_and_token(s, p, rest);
        assert(events[last] == events.last());
        match search_after(s, p, rest) {
            SearchStepModel::ReadMarker { .. } => {
                let i = choose|i: int|
                    0 <= i < rest.len() && #[trigger] rest[i] == SearchEvent::LockTried(
                        LockAttemptModel::Acquired,
                    );
                assert(events[i] == rest[i]);
            },
            SearchStepModel::Query { search } => {
                let (i, j) = choose|i: int, j: int|
                    0 <= i < j < rest.len() && #[trigger] rest[i] == SearchEvent::LockTried(
                        LockAttemptModel::Acquired,
                    ) && #[trigger] rest[j] == SearchEvent::MarkerRead(
                        Ok(Some(search.verified.token)),
                    );
                assert(events[i] == rest[i] && events[j] == rest[j]);
            },
            _ => {},
        }
    }
}

/// Every row of a search is one of the issues that `bd` found, attributed by the
/// map that belongs to the hub, and carries its generation.
pub proof fn law_search_rows_belong_to_the_hub(
    found: Result<Vec<Issue>, BdError>,
    verified: AttributionModel,
    now: int,
    res: Result<(Vec<Row>, VerifiedAttribution), String>,
    k: int,
)
    requires
        search_outcome(found, verified, now, res),
        res matches Ok((rows, _)) && 0 <= k < rows@.len(),
    ensures
        found is Ok,
        ({
            let row = (res->Ok_0).0@[k]@;
            let issues = issues_view((found->Ok_0)@);
            &&& row.generation == Some(verified.generation)
            &&& issues.contains(row.issue)
            &&& row == row_of(
                row.issue,
                issues,
                verified.candidate.prefix_map.entries,
                Some(verified.generation),
            )
        }),
{
    let rows = (res->Ok_0).0@;
    let issues = issues_view((found->Ok_0)@);
    let snapshot = SnapshotModel { rows: rows_view(rows), fetched_at: now };
    assert(rows_view(rows)[k] == rows[k]@);
    law_every_row_is_of_its_issue(
        issues,
        verified.candidate.prefix_map.entries,
        Some(verified.generation),
        now,
        snapshot,
        k,
    );
}

/// A search that `bd` answers shows every issue found, each as often as it was
/// found; one that fails says so with its reason.
pub proof fn law_a_search_shows_what_was_found(
    found: Result<Vec<Issue>, BdError>,
    verified: AttributionModel,
    now: int,
    res: Result<(Vec<Row>, VerifiedAttribution), String>,
)
    requires
        search_outcome(found, verified, now, res),
    ensures
        found is Ok <==> res is Ok,
        found is Ok ==> (res->Ok_0).1@ == verified && rows_view((res->Ok_0).0@).map_values(
            |r: RowModel| r.issue,
        ).to_multiset() == issues_view((found->Ok_0)@).to_multiset(),
        found is Err ==> sanitized(bd_error_text((found->Err_0)@)).is_suffix_of((res->Err_0)@),
{
    match found {
        Ok(issues) => {
            let rows = (res->Ok_0).0@;
            law_a_snapshot_shows_every_issue(
                issues_view(issues@),
                verified.candidate.prefix_map.entries,
                Some(verified.generation),
                now,
                SnapshotModel { rows: rows_view(rows), fetched_at: now },
            );
        },
        Err(e) => {
            let tail = bd_error_text(e@);
            let all = (res->Err_0)@;
            assert(all.skip(all.len() - tail.len()) =~= sanitized(tail));
        },
    }
}

/// Each check that a search does not pass is told apart: no verified refresh yet,
/// another instance at work, a hub that changed, or a failure with its reason.
pub proof fn law_a_refused_search_tells_why(
    s: SessionModel,
    p: PathsModel,
    attempt: LockAttemptModel,
    marker: Result<Option<Seq<char>>, RefreshErrorModel>,
)
    ensures
        ({
            let refusal = search_refusal(s, p, attempt, marker);
            let busy = attempt matches LockAttemptModel::LockFailed(e) && e.kind
                == IoKind::WouldBlock;
            &&& s.current is None ==> refusal == Some(
                "search unavailable until a verified refresh completes"@,
            )
            &&& s.current is Some && busy ==> refusal == Some(
                "search unavailable while another fbd is refreshing; retry shortly"@,
            )
            &&& s.current is Some && attempt is Acquired && marker is Ok && marker->Ok_0 != Some(
                (s.current->Some_0).token,
            ) ==> refusal == Some("hub changed in another fbd process; refresh required"@)
            &&& s.current is Some && attempt is Acquired && marker is Err ==> refusal is Some
                && sanitized(refresh_error_text(marker->Err_0)).is_suffix_of(refusal->Some_0)
            &&& s.current is Some && attempt is OpenFailed ==> refusal is Some
        }),
{
    if marker is Err {
        let tail = refresh_error_text(marker->Err_0);
        let all = sanitized("search failed: "@ + tail);
        assert(all.skip(all.len() - tail.len()) =~= sanitized(tail));
    }
}

/// The answer to a request reaches the interface that waits for it and no other:
/// its rows are then the results shown, and its failure is shown as it is.
pub proof fn law_an_answer_reaches_its_request(
    m: AppModel,
    token: u64,
    result: Result<Seq<RowModel>, Seq<char>>,
)
    requires
        m.search is Some,
        (m.search->Some_0).phase is Pending,
    ensures
        ({
            let after = step(m, search_answer(token, result)).0;
            let s = after.search->Some_0;
            &&& token != m.search_token ==> after == m
            &&& token == m.search_token && result is Ok ==> s.phase is Ready && s.results.rows
                == result->Ok_0
            &&& token == m.search_token && result is Err ==> s.phase == SearchPhaseModel::Failed(
                result->Err_0,
            )
        }),
{
}

/// A session that published a token can search as long as that token is what
/// stands beside the hub: the marker's text as it was written. Another text, or
/// no marker, means that the hub changed, and a marker that cannot be read is a
/// failure.
pub proof fn law_a_published_token_opens_the_search(
    s: SessionModel,
    p: PathsModel,
    token: Seq<char>,
    candidate: CandidateModel,
    text: Seq<char>,
    e: IoFailureModel,
)
    ensures
        ({
            let known = session_next(s, SessionEvent::Published { token, candidate });
            let hub = hub_path(p);
            let lock = LockAttemptModel::Acquired;
            let changed = Some("hub changed in another fbd process; refresh required"@);
            &&& search_refusal(known, p, lock, marker_found(hub, Ok(token))) is None
            &&& text != token ==> search_refusal(known, p, lock, marker_found(hub, Ok(text)))
                == changed
            &&& e.kind == IoKind::NotFound ==> search_refusal(
                known,
                p,
                lock,
                marker_found(hub, Err(e)),
            ) == changed
            &&& e.kind != IoKind::NotFound ==> {
                let refusal = search_refusal(known, p, lock, marker_found(hub, Err(e)));
                refusal is Some && sanitized(e.message).is_suffix_of(refusal->Some_0)
            }
        }),
{
    let failed = RefreshErrorModel::Generation { path: marker_path(hub_path(p)), detail: e.message };
    let all = sanitized("search failed: "@ + refresh_error_text(failed));
    assert(all.skip(all.len() - e.message.len()) =~= sanitized(e.message));
}

} // verus!
