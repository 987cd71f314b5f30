//! What the interface does with each message, as mathematics.
use vstd::prelude::*;
use crate::app::filter::{
    next_repo, repo_passes, toggled, FilterModel, PriorityFilter, RepoFilterModel,
};
use crate::app::list::{
    in_bounds, moved_down, moved_up, refiltered, selected, visible, visible_rows, ListModel,
};
use crate::app::messages::{
    detail_id, DetailModel, EffectModel, InputContext, MsgModel, ViewMode,
};
use crate::snapshot::{RowModel, SnapshotModel, UNKNOWN_REPO};
use crate::text::trimmed;

verus! {

/// How many lines a page of the detail pane is.
pub const DETAIL_PAGE: usize = 10;

/// How far a search has come.
pub enum SearchPhaseModel {
    /// The query is being typed.
    Editing,
    /// The query is running.
    Pending,
    /// The query failed.
    Failed(Seq<char>),
    /// The results are there.
    Ready,
}

/// The state of the search.
pub struct SearchModel {
    pub query: Seq<char>,
    pub phase: SearchPhaseModel,
    pub results: ListModel,
}

/// The state of the repository picker.
pub struct PickerModel {
    pub options: Seq<RepoFilterModel>,
    pub pending: int,
}

/// The state of the interface.
pub struct AppModel {
    pub list: ListModel,
    pub filter: FilterModel,
    pub view: ViewMode,
    pub stale: bool,
    pub warnings: Seq<Seq<char>>,
    pub fetched_at: Option<int>,
    pub detail: Option<DetailModel>,
    pub pinned: Option<RowModel>,
    pub scroll: int,
    pub max_scroll: int,
    pub search: Option<SearchModel>,
    pub picker: Option<PickerModel>,
    pub search_token: u64,
    pub copy_token: u64,
    pub copying: bool,
    pub notice: Option<Seq<char>>,
    pub done: bool,
}

/// What holds of every reachable state: selections lie within what is shown,
/// the detail pane is there exactly while it is shown, a search exists while
/// it is shown or, settled, waits behind the detail pane, and a picker always
/// has a pending choice, of which the first is every repository.
pub open spec fn app_ok(m: AppModel) -> bool {
    &&& in_bounds(m.list.selection, visible(m.list.rows, m.filter).len() as int)
    &&& m.detail is Some <==> m.view == ViewMode::Detail
    &&& m.pinned is Some <==> m.view == ViewMode::Detail
    &&& 0 <= m.scroll <= m.max_scroll
    &&& m.view != ViewMode::Detail ==> m.max_scroll == 0
    &&& m.view == ViewMode::Detail && m.search is Some ==> (m.search->Some_0).phase is Ready
    &&& m.view == ViewMode::Search ==> m.search is Some
    &&& m.search is Some ==> m.view == ViewMode::Search || m.view == ViewMode::Detail
    &&& match m.search {
        Some(s) => in_bounds(s.results.selection, visible(s.results.rows, m.filter).len() as int),
        None => true,
    }
    &&& match m.picker {
        Some(p) => {
            &&& m.view == ViewMode::List || results_shown(m)
            &&& p.options.len() > 0
            &&& p.options[0] == RepoFilterModel::All
            &&& 0 <= p.pending < p.options.len()
        },
        None => true,
    }
}

/// Whether settled search results are on the screen.
pub open spec fn results_shown(m: AppModel) -> bool {
    m.view == ViewMode::Search && match m.search {
        Some(s) => s.phase is Ready,
        None => false,
    }
}

/// Whether keys act on the ready list.
pub open spec fn on_list(m: AppModel) -> bool {
    m.view == ViewMode::List && m.picker is None
}

/// Whether keys act on search results.
pub open spec fn on_results(m: AppModel) -> bool {
    results_shown(m) && m.picker is None
}

/// What the keys act on: the picker while it is open, the query while it is
/// typed, and the screen otherwise.
pub open spec fn context_of(m: AppModel) -> InputContext {
    if m.picker is Some {
        InputContext::RepoPicker
    } else if editing(m) {
        InputContext::SearchEditing
    } else {
        InputContext::Normal
    }
}

/// The state of a new interface: nothing loaded, and a refresh on its way.
pub open spec fn initial_app(repo: RepoFilterModel) -> AppModel {
    AppModel {
        list: ListModel { rows: seq![], selection: 0 },
        filter: FilterModel { repo, priority: PriorityFilter::All },
        view: ViewMode::Loading,
        stale: true,
        warnings: seq![],
        fetched_at: None,
        detail: None,
        pinned: None,
        scroll: 0,
        max_scroll: 0,
        search: None,
        picker: None,
        search_token: 0,
        copy_token: 0,
        copying: false,
        notice: None,
        done: false,
    }
}

/// The state with the rows of a snapshot. The first one opens the list; a
/// later one leaves the screen as it is.
pub open spec fn with_snapshot(m: AppModel, s: SnapshotModel) -> AppModel {
    AppModel {
        list: refiltered(ListModel { rows: s.rows, ..m.list }, m.filter),
        fetched_at: Some(s.fetched_at),
        view: if m.view == ViewMode::Loading {
            ViewMode::List
        } else {
            m.view
        },
        ..m
    }
}

/// The state with another filter on the list and on the search results.
pub open spec fn with_filter(m: AppModel, filter: FilterModel) -> AppModel {
    AppModel {
        filter,
        list: refiltered(m.list, filter),
        search: match m.search {
            Some(s) => Some(SearchModel { results: refiltered(s.results, filter), ..s }),
            None => None,
        },
        ..m
    }
}

/// After the end of a refresh: the rows change only with a snapshot, the
/// warnings are replaced, and the next refresh may be asked for.
pub open spec fn refresh_completed(
    m: AppModel,
    snapshot: Option<SnapshotModel>,
    warnings: Seq<Seq<char>>,
) -> AppModel {
    let shown = match snapshot {
        Some(s) => with_snapshot(m, s),
        None => m,
    };
    AppModel { warnings, stale: false, ..shown }
}

/// After a detail arrived: it is taken only for the issue that the pane is
/// bound to.
pub open spec fn detail_ready(
    m: AppModel,
    id: Seq<char>,
    detail: Result<crate::bd::types::IssueDetailModel, Seq<char>>,
) -> AppModel {
    match m.detail {
        Some(d) if detail_id(d) == id => AppModel {
            detail: Some(
                match detail {
                    Ok(loaded) => DetailModel::Loaded(loaded),
                    Err(message) => DetailModel::Error { id, message },
                },
            ),
            ..m
        },
        _ => m,
    }
}

/// After search results arrived: they are taken only for the running query.
pub open spec fn search_ready(
    m: AppModel,
    token: u64,
    rows: Result<Seq<RowModel>, Seq<char>>,
) -> AppModel {
    match m.search {
        Some(s) if s.phase is Pending && token == m.search_token => AppModel {
            search: Some(
                match rows {
                    Ok(found) => SearchModel {
                        phase: SearchPhaseModel::Ready,
                        results: refiltered(ListModel { rows: found, selection: 0 }, m.filter),
                        ..s
                    },
                    Err(message) => SearchModel { phase: SearchPhaseModel::Failed(message), ..s },
                },
            ),
            ..m
        },
        _ => m,
    }
}

/// After moving the selection, or the detail pane, by one.
pub open spec fn moved(m: AppModel, down: bool) -> AppModel {
    if on_list(m) {
        AppModel {
            list: if down {
                moved_down(m.list, m.filter)
            } else {
                moved_up(m.list)
            },
            ..m
        }
    } else if on_results(m) {
        let s = m.search->Some_0;
        AppModel {
            search: Some(
                SearchModel {
                    results: if down {
                        moved_down(s.results, m.filter)
                    } else {
                        moved_up(s.results)
                    },
                    ..s
                },
            ),
            ..m
        }
    } else {
        scrolled(
            m,
            if down {
                1
            } else {
                -1
            },
        )
    }
}

/// After scrolling the detail pane by some lines, as far as it goes.
pub open spec fn scrolled(m: AppModel, lines: int) -> AppModel {
    if m.view == ViewMode::Detail {
        let to = m.scroll + lines;
        AppModel {
            scroll: if to < 0 {
                0
            } else if to > m.max_scroll {
                m.max_scroll
            } else {
                to
            },
            ..m
        }
    } else {
        m
    }
}

/// After learning how far the detail pane goes.
pub open spec fn scroll_bounded(m: AppModel, max_scroll: int) -> AppModel {
    if m.view == ViewMode::Detail {
        AppModel {
            max_scroll,
            scroll: if m.scroll > max_scroll {
                max_scroll
            } else {
                m.scroll
            },
            ..m
        }
    } else {
        m
    }
}

/// The row that opening the detail pane would show.
pub open spec fn openable(m: AppModel) -> Option<RowModel> {
    if on_list(m) {
        selected(m.list, m.filter)
    } else if on_results(m) {
        selected((m.search->Some_0).results, m.filter)
    } else {
        None
    }
}

/// The row that a copy is about: the one of the detail pane, or the selected
/// one.
pub open spec fn copyable(m: AppModel) -> Option<RowModel> {
    if m.view == ViewMode::Detail {
        m.pinned
    } else {
        openable(m)
    }
}

/// After opening the detail pane.
pub open spec fn detail_opened(m: AppModel) -> (AppModel, Seq<EffectModel>) {
    match openable(m) {
        Some(row) => (
            AppModel {
                view: ViewMode::Detail,
                detail: Some(DetailModel::Loading { id: row.issue.id }),
                pinned: Some(row),
                scroll: 0,
                max_scroll: 0,
                ..m
            },
            seq![EffectModel::FetchDetail(row.issue.id)],
        ),
        None => (m, seq![]),
    }
}

/// After leaving the innermost of picker, detail pane and search.
pub open spec fn backed_out(m: AppModel) -> AppModel {
    if m.picker is Some {
        AppModel { picker: None, ..m }
    } else if m.view == ViewMode::Detail {
        AppModel {
            view: if m.search is Some {
                ViewMode::Search
            } else {
                ViewMode::List
            },
            detail: None,
            pinned: None,
            scroll: 0,
            max_scroll: 0,
            ..m
        }
    } else if m.view == ViewMode::Search {
        AppModel { view: ViewMode::List, search: None, ..m }
    } else {
        m
    }
}

/// After opening the search: an empty query to type.
pub open spec fn search_opened(m: AppModel) -> AppModel {
    if on_list(m) || on_results(m) {
        AppModel {
            view: ViewMode::Search,
            search: Some(
                SearchModel {
                    query: seq![],
                    phase: SearchPhaseModel::Editing,
                    results: ListModel { rows: seq![], selection: 0 },
                },
            ),
            ..m
        }
    } else {
        m
    }
}

/// Whether a query is being typed.
pub open spec fn editing(m: AppModel) -> bool {
    m.view == ViewMode::Search && match m.search {
        Some(s) => s.phase is Editing,
        None => false,
    }
}

/// After a change of the query that is being typed.
pub open spec fn query_changed(m: AppModel, query: Seq<char>) -> AppModel {
    AppModel { search: Some(SearchModel { query, ..m.search->Some_0 }), ..m }
}

/// The token after a token.
pub open spec fn next_token(token: u64) -> u64 {
    if token == u64::MAX {
        0
    } else {
        (token + 1) as u64
    }
}

/// After submitting the query: a query of white space is not run.
pub open spec fn search_submitted(m: AppModel) -> (AppModel, Seq<EffectModel>) {
    if editing(m) && trimmed((m.search->Some_0).query).len() > 0 {
        let s = m.search->Some_0;
        let token = next_token(m.search_token);
        (
            AppModel {
                search: Some(SearchModel { phase: SearchPhaseModel::Pending, ..s }),
                search_token: token,
                ..m
            },
            seq![EffectModel::Search { query: s.query, token }],
        )
    } else {
        (m, seq![])
    }
}

/// After asking for a copy.
pub open spec fn copy_asked(m: AppModel, markdown: bool) -> (AppModel, Seq<EffectModel>) {
    match copyable(m) {
        Some(row) => {
            let token = next_token(m.copy_token);
            (
                AppModel { copy_token: token, copying: true, ..m },
                seq![EffectModel::Copy { row, markdown, token }],
            )
        },
        None => (m, seq![]),
    }
}

/// After the text to copy is ready: it is taken only for the last request.
pub open spec fn copy_ready(
    m: AppModel,
    token: u64,
    payload: Seq<char>,
    summary: Seq<char>,
) -> (AppModel, Seq<EffectModel>) {
    if m.copying && token == m.copy_token {
        (
            AppModel { copying: false, notice: Some("copied: "@ + summary), ..m },
            seq![EffectModel::WriteClipboard(payload)],
        )
    } else {
        (m, seq![])
    }
}

/// The choice that shows a row's repository.
pub open spec fn choice_of(row: RowModel) -> RepoFilterModel {
    match row.repo_id {
        Some(id) => RepoFilterModel::Only(id),
        None => if row.repo_name == UNKNOWN_REPO@ {
            RepoFilterModel::Unknown
        } else {
            RepoFilterModel::Only(row.repo_name)
        },
    }
}

/// The choices of the picker: every repository first, then the repositories of
/// the rows, each once, in the order in which they first appear.
pub open spec fn picker_options(rows: Seq<RowModel>) -> Seq<RepoFilterModel>
    decreases rows.len(),
{
    if rows.len() == 0 {
        seq![RepoFilterModel::All]
    } else {
        let before = picker_options(rows.drop_last());
        if before.contains(choice_of(rows.last())) {
            before
        } else {
            before.push(choice_of(rows.last()))
        }
    }
}

/// Where a choice stands among the options; the first where it is none of
/// them.
pub open spec fn option_index(options: Seq<RepoFilterModel>, repo: RepoFilterModel) -> int {
    if options.contains(repo) {
        options.index_of(repo)
    } else {
        0
    }
}

/// Every row that the interface holds.
pub open spec fn held_rows(m: AppModel) -> Seq<RowModel> {
    match m.search {
        Some(s) => m.list.rows + s.results.rows,
        None => m.list.rows,
    }
}

/// After opening the picker, with the current choice pending.
pub open spec fn picker_opened(m: AppModel) -> AppModel {
    if on_list(m) || on_results(m) {
        let options = picker_options(held_rows(m));
        AppModel {
            picker: Some(
                PickerModel { options, pending: option_index(options, m.filter.repo) },
            ),
            ..m
        }
    } else {
        m
    }
}

/// After moving the picker's pending choice.
pub open spec fn picker_moved(m: AppModel, down: bool) -> AppModel {
    match m.picker {
        Some(p) => AppModel {
            picker: Some(
                PickerModel {
                    pending: if down {
                        if p.pending + 1 < p.options.len() {
                            p.pending + 1
                        } else {
                            p.pending
                        }
                    } else if p.pending > 0 {
                        p.pending - 1
                    } else {
                        p.pending
                    },
                    ..p
                },
            ),
            ..m
        },
        None => m,
    }
}

/// After confirming the picker's pending choice: it applies to the list and to
/// the search results, and is to be stored.
pub open spec fn picker_confirmed(m: AppModel) -> (AppModel, Seq<EffectModel>) {
    match m.picker {
        Some(p) => {
            let repo = p.options[p.pending];
            (
                AppModel {
                    picker: None,
                    ..with_filter(m, FilterModel { repo, ..m.filter })
                },
                seq![EffectModel::PersistRepoView(repo)],
            )
        },
        None => (m, seq![]),
    }
}

/// After storing the choice of repository: a failure is shown while that is
/// still the choice.
pub open spec fn repo_view_persisted(
    m: AppModel,
    repo: RepoFilterModel,
    failure: Option<Seq<char>>,
) -> AppModel {
    match failure {
        Some(message) if m.filter.repo == repo => AppModel { notice: Some(message), ..m },
        _ => m,
    }
}

/// The state and the effects after a message.
pub open spec fn step(m: AppModel, msg: MsgModel) -> (AppModel, Seq<EffectModel>) {
    match msg {
        MsgModel::RefreshStarted => (AppModel { stale: true, ..m }, seq![]),
        MsgModel::RefreshCompleted { snapshot, warnings } => (
            refresh_completed(m, snapshot, warnings),
            seq![],
        ),
        MsgModel::DetailReady { id, detail } => (detail_ready(m, id, detail), seq![]),
        MsgModel::SearchResults { token, rows } => (search_ready(m, token, rows), seq![]),
        MsgModel::Copied { token, payload, summary } => copy_ready(m, token, payload, summary),
        MsgModel::RepoViewPersisted { repo, failure } => (
            repo_view_persisted(m, repo, failure),
            seq![],
        ),
        MsgModel::DetailScrollBounds { max_scroll } => (scroll_bounded(m, max_scroll), seq![]),
        MsgModel::SelectNext => (moved(m, true), seq![]),
        MsgModel::SelectPrev => (moved(m, false), seq![]),
        MsgModel::CycleRepoFilter => if on_list(m) {
            (
                with_filter(
                    m,
                    FilterModel { repo: next_repo(m.list.rows, m.filter.repo), ..m.filter },
                ),
                seq![],
            )
        } else {
            (m, seq![])
        },
        MsgModel::TogglePriorityFilter => if on_list(m) || on_results(m) {
            (
                with_filter(m, FilterModel { priority: toggled(m.filter.priority), ..m.filter }),
                seq![],
            )
        } else {
            (m, seq![])
        },
        MsgModel::Refresh => if m.stale {
            (m, seq![])
        } else {
            (AppModel { stale: true, ..m }, seq![EffectModel::Refresh])
        },
        MsgModel::OpenDetail => detail_opened(m),
        MsgModel::OpenSearch => (search_opened(m), seq![]),
        MsgModel::SearchInput(c) => if editing(m) {
            (query_changed(m, (m.search->Some_0).query.push(c)), seq![])
        } else {
            (m, seq![])
        },
        MsgModel::SearchBackspace => if editing(m) && (m.search->Some_0).query.len() > 0 {
            (query_changed(m, (m.search->Some_0).query.drop_last()), seq![])
        } else {
            (m, seq![])
        },
        MsgModel::SubmitSearch => search_submitted(m),
        MsgModel::OpenRepoPicker => (picker_opened(m), seq![]),
        MsgModel::RepoPickerNext => (picker_moved(m, true), seq![]),
        MsgModel::RepoPickerPrev => (picker_moved(m, false), seq![]),
        MsgModel::ConfirmRepoPicker => picker_confirmed(m),
        MsgModel::CopyContext => copy_asked(m, false),
        MsgModel::CopyMarkdown => copy_asked(m, true),
        MsgModel::DetailScrollDown => (scrolled(m, 1), seq![]),
        MsgModel::DetailScrollUp => (scrolled(m, -1), seq![]),
        MsgModel::DetailPageDown => (scrolled(m, DETAIL_PAGE as int), seq![]),
        MsgModel::DetailPageUp => (scrolled(m, -(DETAIL_PAGE as int)), seq![]),
        MsgModel::Back => (backed_out(m), seq![]),
        MsgModel::Quit => (AppModel { done: true, ..m }, seq![]),
    }
}

/// The state after some messages.
pub open spec fn after_messages(m: AppModel, msgs: Seq<MsgModel>) -> AppModel
    decreases msgs.len(),
{
    if msgs.len() == 0 {
        m
    } else {
        step(after_messages(m, msgs.drop_last()), msgs.last()).0
    }
}

/// The effects asked for by some messages, in order.
pub open spec fn effects_of(m: AppModel, msgs: Seq<MsgModel>) -> Seq<EffectModel>
    decreases msgs.len(),
{
    if msgs.len() == 0 {
        seq![]
    } else {
        effects_of(m, msgs.drop_last()) + step(
            after_messages(m, msgs.drop_last()),
            msgs.last(),
        ).1
    }
}

// ---------------------------------------------------------------------------
// Laws
// ---------------------------------------------------------------------------

/// Every message keeps what holds of every reachable state: above all, a
/// selection never leaves what is shown.
pub proof fn law_every_message_keeps_the_invariant(m: AppModel, msg: MsgModel)
    requires
        app_ok(m),
        msg matches MsgModel::DetailScrollBounds { max_scroll } ==> max_scroll >= 0,
    ensures
        app_ok(step(m, msg).0),
{
    match msg {
        MsgModel::SelectNext => lemma_moved_ok(m, true),
        MsgModel::SelectPrev => lemma_moved_ok(m, false),
        MsgModel::CycleRepoFilter => lemma_with_filter_ok(
            m,
            FilterModel { repo: next_repo(m.list.rows, m.filter.repo), ..m.filter },
        ),
        MsgModel::TogglePriorityFilter => lemma_with_filter_ok(
            m,
            FilterModel { priority: toggled(m.filter.priority), ..m.filter },
        ),
        MsgModel::ConfirmRepoPicker => {
            if m.picker is Some {
                let p = m.picker->Some_0;
                lemma_with_filter_ok(
                    m,
                    FilterModel { repo: p.options[p.pending], ..m.filter },
                );
            }
        },
        MsgModel::OpenRepoPicker => lemma_picker_options(held_rows(m)),
        MsgModel::RefreshCompleted { snapshot, warnings } => lemma_refresh_ok(
            m,
            snapshot,
            warnings,
        ),
        MsgModel::SearchResults { token, rows } => lemma_search_ok(m, token, rows),
        MsgModel::OpenDetail => lemma_open_ok(m),
        MsgModel::Back => lemma_back_ok(m),
        _ => lemma_rest_ok(m, msg),
    }
}

proof fn lemma_moved_ok(m: AppModel, down: bool)
    requires
        app_ok(m),
    ensures
        app_ok(moved(m, down)),
{
}

proof fn lemma_with_filter_ok(m: AppModel, filter: FilterModel)
    requires
        app_ok(m),
    ensures
        app_ok(with_filter(m, filter)),
        m.picker is Some ==> app_ok(AppModel { picker: None, ..with_filter(m, filter) }),
{
}

proof fn lemma_refresh_ok(
    m: AppModel,
    snapshot: Option<SnapshotModel>,
    warnings: Seq<Seq<char>>,
)
    requires
        app_ok(m),
    ensures
        app_ok(refresh_completed(m, snapshot, warnings)),
{
}

proof fn lemma_search_ok(m: AppModel, token: u64, rows: Result<Seq<RowModel>, Seq<char>>)
    requires
        app_ok(m),
    ensures
        app_ok(search_ready(m, token, rows)),
{
}

proof fn lemma_open_ok(m: AppModel)
    requires
        app_ok(m),
    ensures
        app_ok(detail_opened(m).0),
{
}

proof fn lemma_back_ok(m: AppModel)
    requires
        app_ok(m),
    ensures
        app_ok(backed_out(m)),
{
}

proof fn lemma_rest_ok(m: AppModel, msg: MsgModel)
    requires
        app_ok(m),
        msg matches MsgModel::DetailScrollBounds { max_scroll } ==> max_scroll >= 0,
        !(msg is SelectNext),
        !(msg is SelectPrev),
        !(msg is CycleRepoFilter),
        !(msg is TogglePriorityFilter),
        !(msg is ConfirmRepoPicker),
        !(msg is OpenRepoPicker),
        !(msg is RefreshCompleted),
        !(msg is SearchResults),
        !(msg is OpenDetail),
        !(msg is Back),
    ensures
        app_ok(step(m, msg).0),
{
}

/// The picker's options start with every repository, and where a choice stands
/// among them is one of them.
pub proof fn lemma_picker_options(rows: Seq<RowModel>)
    ensures
        picker_options(rows).len() > 0,
        picker_options(rows)[0] == RepoFilterModel::All,
        picker_options(rows).no_duplicates(),
        forall|repo: RepoFilterModel|
            0 <= #[trigger] option_index(picker_options(rows), repo) < picker_options(rows).len(),
    decreases rows.len(),
{
    if rows.len() > 0 {
        lemma_picker_options(rows.drop_last());
        let before = picker_options(rows.drop_last());
        let now = picker_options(rows);
        if !before.contains(choice_of(rows.last())) {
            assert forall|i: int, j: int| 0 <= i < now.len() && 0 <= j < now.len() && i
                != j implies now[i] != now[j] by {
                if i < before.len() && j < before.len() {
                    assert(before[i] != before[j]);
                } else if i < before.len() {
                    assert(before.contains(before[i]));
                } else {
                    assert(before.contains(before[j]));
                }
            }
        }
    }
    assert forall|repo: RepoFilterModel| 0 <= #[trigger] option_index(picker_options(rows), repo)
        < picker_options(rows).len() by {
        let options = picker_options(rows);
        if options.contains(repo) {
            let i = choose|i: int| 0 <= i < options.len() && options[i] == repo;
            assert(options[options.index_of(repo)] == repo);
        }
    }
}

/// Every state that a launch can reach is sound: from a new interface, no
/// sequence of messages leads out of the invariant.
pub proof fn law_reachable_states_are_sound(repo: RepoFilterModel, msgs: Seq<MsgModel>)
    requires
        forall|i: int|
            0 <= i < msgs.len() ==> (#[trigger] msgs[i] matches MsgModel::DetailScrollBounds {
                max_scroll,
            } ==> max_scroll >= 0),
    ensures
        app_ok(after_messages(initial_app(repo), msgs)),
    decreases msgs.len(),
{
    if msgs.len() > 0 {
        let rest = msgs.drop_last();
        assert forall|i: int| 0 <= i < rest.len() implies (
        #[trigger] rest[i] matches MsgModel::DetailScrollBounds { max_scroll } ==> max_scroll
            >= 0) by {
            assert(rest[i] == msgs[i]);
        }
        law_reachable_states_are_sound(repo, rest);
        assert(msgs[msgs.len() - 1] == msgs.last());
        law_every_message_keeps_the_invariant(
            after_messages(initial_app(repo), rest),
            msgs.last(),
        );
    }
}

/// Only the end of a refresh makes room for the next one, and only asking for
/// one, or its start, takes that room.
pub proof fn law_only_completion_ends_a_refresh(m: AppModel, msg: MsgModel)
    ensures
        m.stale && !step(m, msg).0.stale ==> msg is RefreshCompleted,
        !m.stale && step(m, msg).0.stale ==> msg is RefreshStarted || msg is Refresh,
        step(m, msg).1.contains(EffectModel::Refresh) ==> !m.stale && step(m, msg).0.stale,
{
    let effects = step(m, msg).1;
    if effects.contains(EffectModel::Refresh) {
        let i = choose|i: int| 0 <= i < effects.len() && effects[i] == EffectModel::Refresh;
        assert(effects[i] == EffectModel::Refresh);
    }
}

/// While a refresh is on its way no message asks for another: as long as no
/// refresh completes, the messages after a launch ask for none at all.
pub proof fn law_refreshes_never_overlap(m: AppModel, msgs: Seq<MsgModel>)
    requires
        m.stale,
        forall|i: int| 0 <= i < msgs.len() ==> !((#[trigger] msgs[i]) is RefreshCompleted),
    ensures
        after_messages(m, msgs).stale,
        !effects_of(m, msgs).contains(EffectModel::Refresh),
    decreases msgs.len(),
{
    if msgs.len() > 0 {
        let rest = msgs.drop_last();
        assert forall|i: int| 0 <= i < rest.len() implies !((
        #[trigger] rest[i]) is RefreshCompleted) by {
            assert(rest[i] == msgs[i]);
        }
        law_refreshes_never_overlap(m, rest);
        let before = after_messages(m, rest);
        assert(msgs[msgs.len() - 1] == msgs.last());
        law_only_completion_ends_a_refresh(before, msgs.last());
        let a = effects_of(m, rest);
        let b = step(before, msgs.last()).1;
        if (a + b).contains(EffectModel::Refresh) {
            let i = choose|i: int| 0 <= i < (a + b).len() && (a + b)[i] == EffectModel::Refresh;
            if i < a.len() {
                assert(a[i] == EffectModel::Refresh);
            } else {
                assert(b[i - a.len()] == EffectModel::Refresh);
            }
        }
    }
}

/// A failed refresh keeps the rows, the selection, the screen and the time of
/// the last snapshot.
pub proof fn law_a_failed_refresh_keeps_the_view(m: AppModel, warnings: Seq<Seq<char>>)
    ensures
        step(m, MsgModel::RefreshCompleted { snapshot: None, warnings }).0 == (AppModel {
            warnings,
            stale: false,
            ..m
        }),
{
}

/// A refresh under an open detail pane or search does not close it, nor does it
/// change the filter.
pub proof fn law_a_refresh_leaves_the_screen(
    m: AppModel,
    snapshot: Option<SnapshotModel>,
    warnings: Seq<Seq<char>>,
)
    requires
        m.view != ViewMode::Loading,
    ensures
        ({
            let after = step(m, MsgModel::RefreshCompleted { snapshot, warnings }).0;
            &&& after.view == m.view
            &&& after.filter == m.filter
            &&& after.detail == m.detail
            &&& after.pinned == m.pinned
            &&& after.search == m.search
            &&& after.picker == m.picker
        }),
{
}

/// Opening the detail pane asks for exactly one detail, that of the selected
/// issue; doing it again while the pane is open asks for none.
pub proof fn law_one_fetch_for_each_opening(m: AppModel)
    requires
        app_ok(m),
    ensures
        ({
            let (after, effects) = step(m, MsgModel::OpenDetail);
            &&& effects.len() <= 1
            &&& openable(m) matches Some(row) ==> effects == seq![
                EffectModel::FetchDetail(row.issue.id),
            ] && after.view == ViewMode::Detail
            &&& openable(m) is None ==> effects.len() == 0 && after == m
            &&& step(after, MsgModel::OpenDetail) == (after, Seq::<EffectModel>::empty())
        }),
{
}

/// Opening the detail pane and leaving it again gives back the very state that
/// it was opened from.
pub proof fn law_closing_the_detail_restores_the_list(m: AppModel)
    requires
        app_ok(m),
        openable(m) is Some,
    ensures
        step(step(m, MsgModel::OpenDetail).0, MsgModel::Back).0 == m,
{
}

/// While the detail pane is open, no key moves the selection or changes the
/// filter beneath it.
pub proof fn law_the_detail_pane_is_modal(m: AppModel, msg: MsgModel)
    requires
        app_ok(m),
        m.view == ViewMode::Detail,
        !(msg is RefreshCompleted),
    ensures
        step(m, msg).0.list == m.list,
        step(m, msg).0.filter == m.filter,
        step(m, msg).0.search == m.search,
{
}

/// A detail for another issue than the one on the screen changes nothing.
pub proof fn law_a_late_detail_is_dropped(
    m: AppModel,
    id: Seq<char>,
    detail: Result<crate::bd::types::IssueDetailModel, Seq<char>>,
)
    requires
        match m.detail {
            Some(d) => detail_id(d) != id,
            None => true,
        },
    ensures
        step(m, MsgModel::DetailReady { id, detail }) == (m, Seq::<EffectModel>::empty()),
{
}

/// Results of a query that is no longer the running one change nothing.
pub proof fn law_late_results_are_dropped(
    m: AppModel,
    token: u64,
    rows: Result<Seq<RowModel>, Seq<char>>,
)
    requires
        token != m.search_token,
    ensures
        step(m, MsgModel::SearchResults { token, rows }) == (m, Seq::<EffectModel>::empty()),
{
}

/// A copy that a later one has overtaken never reaches the clipboard, and each
/// copy reaches it at most once.
pub proof fn law_only_the_last_copy_is_written(
    m: AppModel,
    token: u64,
    payload: Seq<char>,
    summary: Seq<char>,
)
    ensures
        ({
            let msg = MsgModel::Copied { token, payload, summary };
            let (after, effects) = step(m, msg);
            &&& token != m.copy_token ==> effects.len() == 0 && after == m
            &&& step(after, msg).1.len() == 0
        }),
{
}

/// Typing a character and deleting it leaves the query as it was.
pub proof fn law_backspace_undoes_typing(m: AppModel, c: char)
    requires
        editing(m),
    ensures
        step(step(m, MsgModel::SearchInput(c)).0, MsgModel::SearchBackspace).0 == m,
{
    let q = (m.search->Some_0).query;
    assert(q.push(c).drop_last() =~= q);
}

/// Leaving the picker without confirming changes nothing, whatever was pending.
pub proof fn law_cancelling_the_picker_changes_nothing(m: AppModel, downs: Seq<bool>)
    requires
        m.picker is None,
        on_list(m) || on_results(m),
    ensures
        step(picked(step(m, MsgModel::OpenRepoPicker).0, downs), MsgModel::Back).0 == m,
{
    lemma_picked(step(m, MsgModel::OpenRepoPicker).0, downs);
}

/// The state after moving the picker's pending choice some times.
pub open spec fn picked(m: AppModel, downs: Seq<bool>) -> AppModel
    decreases downs.len(),
{
    if downs.len() == 0 {
        m
    } else {
        picker_moved(picked(m, downs.drop_last()), downs.last())
    }
}

proof fn lemma_picked(m: AppModel, downs: Seq<bool>)
    requires
        m.picker is Some,
    ensures
        picked(m, downs).picker is Some,
        (AppModel { picker: None, ..picked(m, downs) }) == (AppModel { picker: None, ..m }),
    decreases downs.len(),
{
    if downs.len() > 0 {
        lemma_picked(m, downs.drop_last());
    }
}

/// A confirmed choice applies to the list and to the search results at once:
/// afterwards both show only rows that pass the new filter, and the choice is
/// to be stored.
pub proof fn law_a_confirmed_choice_applies_everywhere(m: AppModel)
    requires
        app_ok(m),
        m.picker is Some,
    ensures
        ({
            let p = m.picker->Some_0;
            let (after, effects) = step(m, MsgModel::ConfirmRepoPicker);
            &&& after.filter.repo == p.options[p.pending]
            &&& after.filter.priority == m.filter.priority
            &&& after.list.rows == m.list.rows
            &&& in_bounds(
                after.list.selection,
                visible(after.list.rows, after.filter).len() as int,
            )
            &&& after.picker is None
            &&& effects == seq![EffectModel::PersistRepoView(p.options[p.pending])]
        }),
{
}

/// No message asks for more than one piece of outside work.
pub proof fn law_at_most_one_effect(m: AppModel, msg: MsgModel)
    ensures
        step(m, msg).1.len() <= 1,
{
}

/// Quitting is for good.
pub proof fn law_quitting_is_final(m: AppModel, msg: MsgModel)
    ensures
        step(m, MsgModel::Quit).0.done,
        m.done ==> step(m, msg).0.done,
{
}

/// `j` and `k` move the selection of the list by one row: the next message
/// selects the row below unless the last one is selected, and the previous one
/// the row above unless the first one is. Nothing else changes.
pub proof fn law_the_list_selection_moves_by_one(m: AppModel)
    requires
        app_ok(m),
        on_list(m),
    ensures
        ({
            let n = visible(m.list.rows, m.filter).len();
            let i = m.list.selection;
            let next = step(m, MsgModel::SelectNext);
            let prev = step(m, MsgModel::SelectPrev);
            &&& next.1.len() == 0 && prev.1.len() == 0
            &&& next.0.list.selection == if i + 1 < n {
                i + 1
            } else {
                i
            }
            &&& prev.0.list.selection == if i > 0 {
                i - 1
            } else {
                0
            }
            &&& next.0 == (AppModel {
                list: ListModel { selection: next.0.list.selection, ..m.list },
                ..m
            })
            &&& prev.0 == (AppModel {
                list: ListModel { selection: prev.0.list.selection, ..m.list },
                ..m
            })
            &&& i + 1 < n ==> step(next.0, MsgModel::SelectPrev).0 == m
            &&& i > 0 ==> step(prev.0, MsgModel::SelectNext).0 == m
        }),
{
}

/// `j` and `k` move the selection of shown search results in the same way.
pub proof fn law_the_result_selection_moves_by_one(m: AppModel)
    requires
        app_ok(m),
        on_results(m),
    ensures
        ({
            let s = m.search->Some_0;
            let n = visible(s.results.rows, m.filter).len();
            let i = s.results.selection;
            let next = step(m, MsgModel::SelectNext);
            let prev = step(m, MsgModel::SelectPrev);
            let down = next.0.search->Some_0;
            let up = prev.0.search->Some_0;
            &&& next.1.len() == 0 && prev.1.len() == 0
            &&& next.0.search is Some && prev.0.search is Some
            &&& down.results.selection == if i + 1 < n {
                i + 1
            } else {
                i
            }
            &&& up.results.selection == if i > 0 {
                i - 1
            } else {
                0
            }
            &&& down == (SearchModel {
                results: ListModel { selection: down.results.selection, ..s.results },
                ..s
            })
            &&& up == (SearchModel {
                results: ListModel { selection: up.results.selection, ..s.results },
                ..s
            })
            &&& next.0 == (AppModel { search: next.0.search, ..m })
            &&& prev.0 == (AppModel { search: prev.0.search, ..m })
            &&& i + 1 < n ==> step(next.0, MsgModel::SelectPrev).0 == m
            &&& i > 0 ==> step(prev.0, MsgModel::SelectNext).0 == m
        }),
{
}

/// The picker's pending choice moves by one as well, and stops at either end.
pub proof fn law_the_picker_moves_by_one(m: AppModel)
    requires
        app_ok(m),
        m.picker is Some,
    ensures
        ({
            let p = m.picker->Some_0;
            let next = step(m, MsgModel::RepoPickerNext).0;
            let prev = step(m, MsgModel::RepoPickerPrev).0;
            let last = p.options.len() - 1;
            &&& next == (AppModel { picker: next.picker, ..m })
            &&& prev == (AppModel { picker: prev.picker, ..m })
            &&& next.picker == Some(
                PickerModel {
                    pending: if p.pending < last {
                        p.pending + 1
                    } else {
                        last
                    },
                    ..p
                },
            )
            &&& prev.picker == Some(
                PickerModel {
                    pending: if p.pending > 0 {
                        p.pending - 1
                    } else {
                        0
                    },
                    ..p
                },
            )
            &&& p.pending < last ==> step(next, MsgModel::RepoPickerPrev).0 == m
            &&& p.pending > 0 ==> step(prev, MsgModel::RepoPickerNext).0 == m
        }),
{
}

/// The picker offers every repository first and then each repository of the
/// rows once. The choice in force is the pending one where it is offered, and
/// every repository otherwise. Opening it changes nothing else.
pub proof fn law_the_picker_opens_on_the_current_choice(m: AppModel)
    requires
        app_ok(m),
        on_list(m) || on_results(m),
    ensures
        ({
            let after = step(m, MsgModel::OpenRepoPicker).0;
            let p = after.picker->Some_0;
            let rows = held_rows(m);
            &&& after == (AppModel { picker: after.picker, ..m })
            &&& after.picker is Some
            &&& p.options.no_duplicates()
            &&& p.options[0] == RepoFilterModel::All
            &&& forall|i: int| 0 <= i < rows.len() ==> p.options.contains(
                choice_of(#[trigger] rows[i]),
            )
            &&& forall|k: int|
                0 < k < p.options.len() ==> exists|i: int|
                    0 <= i < rows.len() && choice_of(#[trigger] rows[i]) == #[trigger] p.options[k]
            &&& p.options.contains(m.filter.repo) ==> p.options[p.pending] == m.filter.repo
            &&& !p.options.contains(m.filter.repo) ==> p.pending == 0
        }),
{
    lemma_picker_options(held_rows(m));
    lemma_picker_offers(held_rows(m));
    let options = picker_options(held_rows(m));
    if options.contains(m.filter.repo) {
        let i = choose|i: int| 0 <= i < options.len() && options[i] == m.filter.repo;
        assert(options[options.index_of(m.filter.repo)] == m.filter.repo);
    }
}

proof fn lemma_picker_offers(rows: Seq<RowModel>)
    ensures
        forall|i: int|
            0 <= i < rows.len() ==> picker_options(rows).contains(choice_of(#[trigger] rows[i])),
        forall|k: int|
            0 < k < picker_options(rows).len() ==> exists|i: int|
                0 <= i < rows.len() && choice_of(#[trigger] rows[i]) == #[trigger] picker_options(
                    rows,
                )[k],
        picker_options(rows).len() > 0,
    decreases rows.len(),
{
    if rows.len() > 0 {
        let rest = rows.drop_last();
        lemma_picker_offers(rest);
        let before = picker_options(rest);
        let now = picker_options(rows);
        assert(rows[rows.len() - 1] == rows.last());
        assert forall|i: int| 0 <= i < rows.len() implies now.contains(
            choice_of(#[trigger] rows[i]),
        ) by {
            if i < rest.len() {
                assert(rest[i] == rows[i]);
                let k = choose|k: int| 0 <= k < before.len() && before[k] == choice_of(rest[i]);
                assert(now[k] == before[k]);
            } else if !before.contains(choice_of(rows.last())) {
                assert(now[now.len() - 1] == choice_of(rows.last()));
            }
        }
        assert forall|k: int| 0 < k < now.len() implies exists|i: int|
            0 <= i < rows.len() && choice_of(#[trigger] rows[i]) == #[trigger] now[k] by {
            if k < before.len() {
                assert(before[k] == now[k]);
                let i = choose|i: int|
                    0 <= i < rest.len() && choice_of(#[trigger] rest[i]) == before[k];
                assert(rows[i] == rest[i]);
            } else {
                assert(choice_of(rows[rows.len() - 1]) == now[k]);
            }
        }
    }
}

/// The choice that is offered for a row shows that row, and of all rows exactly
/// those for which the same choice is offered. Rows with an id are alike where
/// the ids are.
pub proof fn law_a_choice_shows_its_repository(a: RowModel, b: RowModel)
    ensures
        repo_passes(choice_of(a), a),
        a.repo_id is Some && b.repo_id is Some ==> (repo_passes(choice_of(a), b) <==> a.repo_id
            == b.repo_id),
        choice_of(a) == choice_of(b) ==> repo_passes(choice_of(a), b),
        choice_of(a) != RepoFilterModel::All,
{
}

/// While the detail pane is open, the keys that move a selection scroll it: by
/// a line or by a page of ten lines, down as far as it goes and up to its start.
/// Nothing else changes.
pub proof fn law_the_detail_pane_scrolls(m: AppModel)
    requires
        app_ok(m),
        m.view == ViewMode::Detail,
        m.picker is None,
    ensures
        ({
            let down = step(m, MsgModel::DetailScrollDown).0;
            let up = step(m, MsgModel::DetailScrollUp).0;
            let page_down = step(m, MsgModel::DetailPageDown).0;
            let page_up = step(m, MsgModel::DetailPageUp).0;
            &&& down == step(m, MsgModel::SelectNext).0
            &&& up == step(m, MsgModel::SelectPrev).0
            &&& down == (AppModel { scroll: down.scroll, ..m })
            &&& up == (AppModel { scroll: up.scroll, ..m })
            &&& page_down == (AppModel { scroll: page_down.scroll, ..m })
            &&& page_up == (AppModel { scroll: page_up.scroll, ..m })
            &&& down.scroll == if m.scroll < m.max_scroll {
                m.scroll + 1
            } else {
                m.max_scroll
            }
            &&& up.scroll == if m.scroll > 0 {
                m.scroll - 1
            } else {
                0
            }
            &&& page_down.scroll == if m.scroll + 10 < m.max_scroll {
                m.scroll + 10
            } else {
                m.max_scroll
            }
            &&& page_up.scroll == if m.scroll > 10 {
                m.scroll - 10
            } else {
                0
            }
        }),
{
}

/// Only an open detail pane scrolls. Its new bounds hold at once: a position
/// beyond them becomes the last one, and any other stays.
pub proof fn law_scrolling_respects_its_bounds(m: AppModel, max_scroll: int)
    requires
        app_ok(m),
        max_scroll >= 0,
    ensures
        m.view != ViewMode::Detail ==> {
            &&& step(m, MsgModel::DetailScrollDown).0 == m
            &&& step(m, MsgModel::DetailScrollUp).0 == m
            &&& step(m, MsgModel::DetailPageDown).0 == m
            &&& step(m, MsgModel::DetailPageUp).0 == m
            &&& step(m, MsgModel::DetailScrollBounds { max_scroll }).0 == m
        },
        m.view == ViewMode::Detail ==> {
            let after = step(m, MsgModel::DetailScrollBounds { max_scroll }).0;
            &&& after == (AppModel { scroll: after.scroll, max_scroll, ..m })
            &&& after.scroll <= max_scroll
            &&& m.scroll <= max_scroll ==> after.scroll == m.scroll
            &&& m.scroll > max_scroll ==> after.scroll == max_scroll
        },
{
}

/// Leaving goes out by one level: from the picker to what it covers, from the
/// detail pane to where it was opened, from a search to the list. The list and
/// the filter stay as they are, and from the list nothing is left.
pub proof fn law_leaving_goes_out_by_one_level(m: AppModel)
    requires
        app_ok(m),
    ensures
        ({
            let (after, effects) = step(m, MsgModel::Back);
            &&& effects.len() == 0
            &&& after.list == m.list && after.filter == m.filter && after.warnings == m.warnings
            &&& after.done == m.done && after.stale == m.stale
            &&& after.picker is None
            &&& m.picker is Some ==> after.view == m.view && after.search == m.search
                && after.detail == m.detail && after.scroll == m.scroll
            &&& m.picker is None && m.view == ViewMode::Detail ==> {
                &&& after.detail is None && after.pinned is None
                &&& after.scroll == 0
                &&& after.search == m.search
                &&& after.view == ViewMode::Search <==> m.search is Some
                &&& after.view == ViewMode::List <==> m.search is None
            }
            &&& m.picker is None && m.view == ViewMode::Search ==> after.view == ViewMode::List
                && after.search is None
            &&& m.picker is None && (m.view == ViewMode::List || m.view == ViewMode::Loading)
                ==> after == m
        }),
{
}

/// Opening the search from the list or from results starts with an empty query
/// and without results; from anywhere else it does nothing.
pub proof fn law_a_search_starts_empty(m: AppModel)
    requires
        app_ok(m),
    ensures
        ({
            let (after, effects) = step(m, MsgModel::OpenSearch);
            &&& effects.len() == 0
            &&& on_list(m) || on_results(m) ==> {
                &&& editing(after)
                &&& (after.search->Some_0).query.len() == 0
                &&& (after.search->Some_0).results.rows.len() == 0
                &&& after == (AppModel { view: ViewMode::Search, search: after.search, ..m })
            }
            &&& !on_list(m) && !on_results(m) ==> after == m
        }),
{
}

/// Typing adds to the end of the query and erasing takes from its end, while it
/// is being typed and never otherwise.
pub proof fn law_typing_changes_the_end_of_the_query(m: AppModel, c: char)
    requires
        app_ok(m),
    ensures
        ({
            let typed = step(m, MsgModel::SearchInput(c)).0;
            let erased = step(m, MsgModel::SearchBackspace).0;
            &&& !editing(m) ==> typed == m && erased == m
            &&& editing(m) ==> {
                let q = (m.search->Some_0).query;
                let longer = (typed.search->Some_0).query;
                let shorter = (erased.search->Some_0).query;
                &&& editing(typed) && editing(erased)
                &&& longer.len() == q.len() + 1 && longer.last() == c && longer.drop_last() == q
                &&& q.len() == 0 ==> erased == m
                &&& q.len() > 0 ==> shorter == q.drop_last()
            }
        }),
{
    if editing(m) {
        let q = (m.search->Some_0).query;
        assert(q.push(c).drop_last() =~= q);
    }
}

/// A query that is more than white space is run as it was typed, under a token
/// that the last request did not have, and then waits for its results; anything
/// else runs nothing and changes nothing.
pub proof fn law_a_query_is_run_as_typed(m: AppModel)
    requires
        app_ok(m),
    ensures
        ({
            let (after, effects) = step(m, MsgModel::SubmitSearch);
            let runs = editing(m) && trimmed((m.search->Some_0).query).len() > 0;
            &&& !runs ==> effects.len() == 0 && after == m
            &&& runs ==> {
                &&& effects == seq![
                    EffectModel::Search {
                        query: (m.search->Some_0).query,
                        token: after.search_token,
                    },
                ]
                &&& after.search_token != m.search_token
                &&& m.search_token < u64::MAX ==> after.search_token == m.search_token + 1
                &&& (after.search->Some_0).phase is Pending
                &&& (after.search->Some_0).query == (m.search->Some_0).query
                &&& after == (AppModel {
                    search: after.search,
                    search_token: after.search_token,
                    ..m
                })
            }
        }),
{
}

/// The results of the running query are shown, all of them, with the first one
/// selected; its failure is shown in its place. The query stays.
pub proof fn law_results_answer_the_running_query(
    m: AppModel,
    rows: Result<Seq<RowModel>, Seq<char>>,
)
    requires
        app_ok(m),
        m.search is Some,
        (m.search->Some_0).phase is Pending,
    ensures
        ({
            let msg = MsgModel::SearchResults { token: m.search_token, rows };
            let (after, effects) = step(m, msg);
            let s = after.search->Some_0;
            &&& effects.len() == 0
            &&& after.search is Some
            &&& after == (AppModel { search: after.search, ..m })
            &&& s.query == (m.search->Some_0).query
            &&& rows is Ok ==> s.phase is Ready && s.results.rows == rows->Ok_0
                && s.results.selection == 0
            &&& rows is Err ==> s.phase == SearchPhaseModel::Failed(rows->Err_0) && s.results == (
            m.search->Some_0).results
            &&& step(after, msg).0 == after
        }),
{
}

/// The detail of the issue on the screen is shown, and a failure to load it is
/// shown in its place.
pub proof fn law_a_detail_answers_the_open_pane(
    m: AppModel,
    id: Seq<char>,
    detail: Result<crate::bd::types::IssueDetailModel, Seq<char>>,
)
    requires
        app_ok(m),
        m.detail is Some,
        detail_id(m.detail->Some_0) == id,
    ensures
        ({
            let (after, effects) = step(m, MsgModel::DetailReady { id, detail });
            &&& effects.len() == 0
            &&& after == (AppModel { detail: after.detail, ..m })
            &&& detail is Ok ==> after.detail == Some(DetailModel::Loaded(detail->Ok_0))
            &&& detail is Err ==> after.detail == Some(
                DetailModel::Error { id, message: detail->Err_0 },
            )
        }),
{
}

/// A copy is about the row of the detail pane while that is open and about the
/// selected row otherwise. It is asked for under a token that the last request
/// did not have, and as the form that was asked for; without a row nothing
/// happens.
pub proof fn law_a_copy_is_about_the_row_in_view(m: AppModel, markdown: bool)
    requires
        app_ok(m),
    ensures
        ({
            let msg = if markdown {
                MsgModel::CopyMarkdown
            } else {
                MsgModel::CopyContext
            };
            let (after, effects) = step(m, msg);
            let row = if m.view == ViewMode::Detail {
                m.pinned
            } else if on_list(m) {
                selected(m.list, m.filter)
            } else if on_results(m) {
                selected((m.search->Some_0).results, m.filter)
            } else {
                None
            };
            &&& row is None ==> effects.len() == 0 && after == m
            &&& row is Some ==> {
                &&& effects == seq![
                    EffectModel::Copy { row: row->Some_0, markdown, token: after.copy_token },
                ]
                &&& after.copy_token != m.copy_token
                &&& m.copy_token < u64::MAX ==> after.copy_token == m.copy_token + 1
                &&& after.copying
                &&& after == (AppModel { copy_token: after.copy_token, copying: true, ..m })
            }
        }),
{
}

/// The text of the last copy that was asked for reaches the clipboard unchanged
/// and is reported with its summary.
pub proof fn law_the_last_copy_is_written_and_reported(
    m: AppModel,
    payload: Seq<char>,
    summary: Seq<char>,
)
    requires
        m.copying,
    ensures
        ({
            let (after, effects) = step(
                m,
                MsgModel::Copied { token: m.copy_token, payload, summary },
            );
            &&& effects == seq![EffectModel::WriteClipboard(payload)]
            &&& after.notice is Some && summary.is_suffix_of(after.notice->Some_0)
            &&& (after.notice->Some_0).len() == summary.len() + "copied: "@.len()
            &&& "copied: "@.is_prefix_of(after.notice->Some_0)
            &&& after == (AppModel { copying: false, notice: after.notice, ..m })
        }),
{
    let all = "copied: "@ + summary;
    assert(all.skip(all.len() - summary.len()) =~= summary);
    assert(all.take("copied: "@.len() as int) =~= "copied: "@);
}

/// A refresh is asked for exactly where none is on its way, and the interface
/// then waits for it.
pub proof fn law_a_refresh_is_asked_for_once(m: AppModel)
    ensures
        ({
            let (after, effects) = step(m, MsgModel::Refresh);
            &&& m.stale ==> effects.len() == 0 && after == m
            &&& !m.stale ==> effects == seq![EffectModel::Refresh]
            &&& after == (AppModel { stale: true, ..m })
            &&& step(m, MsgModel::RefreshStarted) == (
                AppModel { stale: true, ..m },
                Seq::<EffectModel>::empty(),
            )
        }),
{
}

/// A refresh that ends with a snapshot shows exactly its rows and its time, and
/// ends the loading screen. The selection stays where it is as long as there is
/// a row for it.
pub proof fn law_a_refresh_shows_its_snapshot(
    m: AppModel,
    snapshot: SnapshotModel,
    warnings: Seq<Seq<char>>,
)
    requires
        app_ok(m),
    ensures
        ({
            let after = step(
                m,
                MsgModel::RefreshCompleted { snapshot: Some(snapshot), warnings },
            ).0;
            let n = visible(snapshot.rows, m.filter).len();
            &&& after.list.rows == snapshot.rows
            &&& after.fetched_at == Some(snapshot.fetched_at)
            &&& after.warnings == warnings
            &&& !after.stale
            &&& m.view == ViewMode::Loading ==> after.view == ViewMode::List
            &&& m.list.selection < n ==> after.list.selection == m.list.selection
            &&& m.list.selection >= n && n > 0 ==> after.list.selection == n - 1
            &&& after == (AppModel {
                list: after.list,
                fetched_at: after.fetched_at,
                view: after.view,
                warnings,
                stale: false,
                ..m
            })
        }),
{
}

/// The filter keys act on the list and on results, and change one choice each:
/// the priority switches between all and the high ones, and the repository goes
/// to the next one of the list. The rows stay, and so does a selection that is
/// still shown.
pub proof fn law_a_filter_key_changes_one_choice(m: AppModel)
    requires
        app_ok(m),
    ensures
        ({
            let (high, none) = step(m, MsgModel::TogglePriorityFilter);
            let (cycled, nothing) = step(m, MsgModel::CycleRepoFilter);
            &&& none.len() == 0 && nothing.len() == 0
            &&& high.filter.repo == m.filter.repo
            &&& cycled.filter.priority == m.filter.priority
            &&& high.list.rows == m.list.rows && cycled.list.rows == m.list.rows
            &&& on_list(m) || on_results(m) ==> high.filter.priority != m.filter.priority
            &&& !on_list(m) && !on_results(m) ==> high == m
            &&& on_list(m) ==> cycled.filter.repo == next_repo(m.list.rows, m.filter.repo)
            &&& !on_list(m) ==> cycled == m
            &&& m.list.selection < visible(m.list.rows, high.filter).len() ==> high.list.selection
                == m.list.selection
            &&& high.view == m.view && cycled.view == m.view
            &&& m.search is None ==> high.search is None && cycled.search is None
            &&& m.search is Some ==> high.search is Some && (high.search->Some_0).results.rows == (
            m.search->Some_0).results.rows && (high.search->Some_0).query == (
            m.search->Some_0).query && (high.search->Some_0).phase == (m.search->Some_0).phase
        }),
{
}

/// A failure to store a choice is shown while that choice is in force; success,
/// or the failure of a choice that was replaced, changes nothing.
pub proof fn law_only_a_current_failure_to_store_is_shown(
    m: AppModel,
    repo: RepoFilterModel,
    failure: Option<Seq<char>>,
)
    ensures
        ({
            let (after, effects) = step(m, MsgModel::RepoViewPersisted { repo, failure });
            &&& effects.len() == 0
            &&& failure is Some && m.filter.repo == repo ==> after == (AppModel {
                notice: failure,
                ..m
            })
            &&& failure is None || m.filter.repo != repo ==> after == m
        }),
{
}

/// While a picker is open, nothing beneath it changes but by its confirmation or
/// by results from outside: no message moves a selection, changes the filter or
/// opens anything.
pub proof fn law_the_picker_is_modal(m: AppModel, msg: MsgModel)
    requires
        app_ok(m),
        m.picker is Some,
        !(msg is RefreshCompleted),
        !(msg is ConfirmRepoPicker),
    ensures
        ({
            let after = step(m, msg).0;
            &&& after.list == m.list && after.filter == m.filter && after.search == m.search
            &&& after.view == m.view && after.detail == m.detail
            &&& after.picker is Some || msg is Back
        }),
{
}

/// While a query is typed, runs or has failed, no message moves the list's
/// selection, changes the filter or opens a detail; only leaving shows the list.
pub proof fn law_an_unsettled_search_is_modal(m: AppModel, msg: MsgModel)
    requires
        app_ok(m),
        m.view == ViewMode::Search,
        !results_shown(m),
        !(msg is RefreshCompleted),
    ensures
        ({
            let after = step(m, msg).0;
            &&& after.list == m.list && after.filter == m.filter
            &&& after.view == m.view || msg is Back && after.view == ViewMode::List
            &&& after.detail is None && after.picker is None
        }),
{
}

/// What can be opened is the selected row of what is shown: of the list or of
/// settled results, without a picker over them. Opening it binds the detail pane
/// to that row, which then loads its issue from the top.
pub proof fn law_opening_binds_the_selected_row(m: AppModel)
    requires
        app_ok(m),
    ensures
        m.picker is Some || m.view == ViewMode::Loading || m.view == ViewMode::Detail ==> openable(m)
            is None,
        m.view == ViewMode::Search && !results_shown(m) ==> openable(m) is None,
        on_list(m) && visible_rows(m.list.rows, m.filter).len() > 0 ==> openable(m) == Some(
            visible_rows(m.list.rows, m.filter)[m.list.selection],
        ),
        on_results(m) ==> {
            let r = (m.search->Some_0).results;
            visible_rows(r.rows, m.filter).len() > 0 ==> openable(m) == Some(
                visible_rows(r.rows, m.filter)[r.selection],
            )
        },
        openable(m) matches Some(row) ==> {
            let after = step(m, MsgModel::OpenDetail).0;
            &&& after.pinned == Some(row)
            &&& after.detail == Some(DetailModel::Loading { id: row.issue.id })
            &&& after.scroll == 0 && after.max_scroll == 0
            &&& after.list == m.list && after.search == m.search && after.filter == m.filter
        },
{
}

/// Another filter leaves the selection of search results where it is as long as
/// it is still shown, and otherwise selects the last one; so does confirming the
/// picker.
pub proof fn law_a_filter_keeps_the_result_selection(m: AppModel)
    requires
        app_ok(m),
        m.search is Some,
    ensures
        ({
            let r = (m.search->Some_0).results;
            let high = step(m, MsgModel::TogglePriorityFilter).0;
            let chosen = step(m, MsgModel::ConfirmRepoPicker).0;
            let n = visible(r.rows, high.filter).len();
            let k = visible(r.rows, chosen.filter).len();
            &&& on_results(m) && r.selection < n ==> (high.search->Some_0).results.selection
                == r.selection
            &&& on_results(m) && r.selection >= n && n > 0 ==> (
            high.search->Some_0).results.selection == n - 1
            &&& m.picker is Some && r.selection < k ==> (chosen.search->Some_0).results.selection
                == r.selection
            &&& m.picker is Some && r.selection >= k && k > 0 ==> (
            chosen.search->Some_0).results.selection == k - 1
            &&& m.picker is Some ==> (chosen.search->Some_0).results.rows == r.rows
        }),
{
}

} // verus!
