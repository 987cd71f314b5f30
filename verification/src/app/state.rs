//! The state of the interface and its one transition, [`App::reduce`].
use vstd::prelude::*;
use vstd::string::*;
use crate::app::filter::{next_repo_filter, FilterModel, FilterSet, PriorityFilter, RepoFilter, RepoFilterModel};
use crate::app::list::{selected, visible, visible_rows, RowList};
use crate::app::messages::{
    effects_view, DetailModel, DetailState, Effect, EffectModel, InputContext, MsgModel, ViewMode,
};
use crate::app::model::{
    app_ok, backed_out, choice_of, context_of, copy_asked, copy_ready, detail_opened, detail_ready,
    editing, held_rows, initial_app, law_every_message_keeps_the_invariant, lemma_picker_options,
    moved, next_token, on_list, on_results, openable, option_index, picker_confirmed, picker_moved,
    picker_opened, picker_options, refresh_completed, repo_view_persisted, results_shown,
    scroll_bounded, scrolled, search_opened, search_ready, search_submitted, step, with_filter,
    with_snapshot, AppModel, PickerModel, SearchModel, SearchPhaseModel,
};
use crate::bd::types::IssueDetail;
use crate::refresh::generation::{opt_generation, AttributionGeneration};
use crate::snapshot::{rows_view, Row, RowModel, Snapshot, UNKNOWN_REPO};
use crate::text::{chars_of, copy_opt_text, copy_texts, is_blank, opt_text, same_text, text_of, texts};
use crate::time::Timestamp;

verus! {

/// How far a search has come.
#[derive(Debug, PartialEq, Eq)]
pub enum SearchPhase {
    /// The query is being typed.
    Editing,
    /// The query is running.
    Pending,
    /// The query failed.
    Failed(String),
    /// The results are there.
    Ready,
}

impl View for SearchPhase {
    type V = SearchPhaseModel;

    open spec fn view(&self) -> SearchPhaseModel {
        match self {
            SearchPhase::Editing => SearchPhaseModel::Editing,
            SearchPhase::Pending => SearchPhaseModel::Pending,
            SearchPhase::Failed(m) => SearchPhaseModel::Failed(m@),
            SearchPhase::Ready => SearchPhaseModel::Ready,
        }
    }
}

impl Clone for SearchPhase {
    fn clone(&self) -> (res: SearchPhase)
        ensures
            res@ == self@,
    {
        match self {
            SearchPhase::Editing => SearchPhase::Editing,
            SearchPhase::Pending => SearchPhase::Pending,
            SearchPhase::Failed(message) => SearchPhase::Failed(message.clone()),
            SearchPhase::Ready => SearchPhase::Ready,
        }
    }
}

#[derive(Debug)]
struct Search {
    query: String,
    phase: SearchPhase,
    results: RowList,
}

impl Search {
    spec fn model(self) -> SearchModel {
        SearchModel { query: self.query@, phase: self.phase@, results: self.results@ }
    }
}

#[derive(Debug)]
struct Picker {
    options: Vec<RepoFilter>,
    pending: usize,
}

spec fn options_view(v: Seq<RepoFilter>) -> Seq<RepoFilterModel> {
    v.map_values(|r: RepoFilter| r@)
}

impl Picker {
    spec fn model(self) -> PickerModel {
        PickerModel { options: options_view(self.options@), pending: self.pending as int }
    }
}

/// The whole state of the interface.
#[derive(Debug)]
pub struct App {
    list: RowList,
    filter: FilterSet,
    view_mode: ViewMode,
    stale: bool,
    status_warnings: Vec<String>,
    fetched_at: Option<Timestamp>,
    detail: Option<DetailState>,
    pinned: Option<Row>,
    scroll: usize,
    max_scroll: usize,
    search: Option<Search>,
    picker: Option<Picker>,
    search_token: u64,
    copy_token: u64,
    copying: bool,
    notice: Option<String>,
    done: bool,
}

spec fn opt_time(o: Option<Timestamp>) -> Option<int> {
    match o {
        Some(t) => Some(t@),
        None => None,
    }
}

spec fn opt_detail(o: Option<DetailState>) -> Option<DetailModel> {
    match o {
        Some(d) => Some(d@),
        None => None,
    }
}

spec fn opt_row(o: Option<Row>) -> Option<RowModel> {
    match o {
        Some(r) => Some(r@),
        None => None,
    }
}

spec fn opt_search(o: Option<Search>) -> Option<SearchModel> {
    match o {
        Some(s) => Some(s.model()),
        None => None,
    }
}

spec fn opt_picker(o: Option<Picker>) -> Option<PickerModel> {
    match o {
        Some(p) => Some(p.model()),
        None => None,
    }
}

impl View for App {
    type V = AppModel;

    closed spec fn view(&self) -> AppModel {
        AppModel {
            list: self.list@,
            filter: self.filter@,
            view: self.view_mode,
            stale: self.stale,
            warnings: texts(self.status_warnings@),
            fetched_at: opt_time(self.fetched_at),
            detail: opt_detail(self.detail),
            pinned: opt_row(self.pinned),
            scroll: self.scroll as int,
            max_scroll: self.max_scroll as int,
            search: opt_search(self.search),
            picker: opt_picker(self.picker),
            search_token: self.search_token,
            copy_token: self.copy_token,
            copying: self.copying,
            notice: opt_text(self.notice),
            done: self.done,
        }
    }
}

pub(crate) fn no_effects() -> (res: Vec<Effect>)
    ensures
        effects_view(res@) == Seq::<EffectModel>::empty(),
{
    let v: Vec<Effect> = Vec::new();
    assert(effects_view(v@) =~= Seq::<EffectModel>::empty());
    v
}

fn one_effect(e: Effect) -> (res: Vec<Effect>)
    ensures
        effects_view(res@) == seq![e@],
{
    let v = vec![e];
    assert(effects_view(v@) =~= seq![e@]);
    v
}

fn token_after(token: u64) -> (res: u64)
    ensures
        res == next_token(token),
{
    if token == u64::MAX {
        0
    } else {
        token + 1
    }
}

fn choice(row: &Row) -> (res: RepoFilter)
    ensures
        res@ == choice_of(row@),
{
    match &row.repo_id {
        Some(id) => RepoFilter::Only(id.clone()),
        None => if same_text(row.repo_name.as_str(), UNKNOWN_REPO) {
            RepoFilter::Unknown
        } else {
            RepoFilter::Only(row.repo_name.clone())
        },
    }
}

fn find_option(options: &Vec<RepoFilter>, repo: &RepoFilter) -> (res: Option<usize>)
    ensures
        match res {
            Some(i) => i < options@.len() && options_view(options@).contains(repo@)
                && options_view(options@)[i as int] == repo@ && forall|k: int|
                0 <= k < i ==> (#[trigger] options_view(options@)[k]) != repo@,
            None => !options_view(options@).contains(repo@),
        },
{
    let mut i: usize = 0;
    while i < options.len()
        invariant
            i <= options@.len(),
            forall|k: int| 0 <= k < i ==> (#[trigger] options_view(options@)[k]) != repo@,
        decreases options@.len() - i,
    {
        let same = options[i].same(repo);
        assert(options_view(options@)[i as int] == options@[i as int]@);
        if same {
            return Some(i);
        }
        i += 1;
    }
    None
}

fn add_options(options: &mut Vec<RepoFilter>, rows: &Vec<Row>, Ghost(before): Ghost<Seq<RowModel>>)
    requires
        options_view(old(options)@) == picker_options(before),
    ensures
        options_view(final(options)@) == picker_options(before + rows_view(rows@)),
{
    let ghost all = rows_view(rows@);
    let mut i: usize = 0;
    assert(before + all.take(0) =~= before);
    while i < rows.len()
        invariant
            i <= rows@.len(),
            all == rows_view(rows@),
            options_view(options@) == picker_options(before + all.take(i as int)),
        decreases rows@.len() - i,
    {
        let ghost old_options = options@;
        let repo = choice(&rows[i]);
        let ghost seen = before + all.take(i as int);
        let ghost now = before + all.take(i + 1);
        assert(now.drop_last() =~= seen);
        assert(now.last() == rows@[i as int]@);
        match find_option(options, &repo) {
            Some(_) => {},
            None => {
                let ghost shown = repo@;
                options.push(repo);
                assert(options_view(options@) =~= options_view(old_options).push(shown));
            },
        }
        i += 1;
    }
    assert(all.take(all.len() as int) =~= all);
}

impl App {
    /// Whether the state is one that a launch can reach.
    pub closed spec fn wf(&self) -> bool {
        &&& app_ok(self@)
        &&& self.list.shows(self.filter@)
        &&& match self.search {
            Some(s) => s.results.shows(self.filter@),
            None => true,
        }
    }

    /// What being well formed means.
    pub proof fn lemma_wf(&self)
        requires
            self.wf(),
        ensures
            app_ok(self@),
    {
    }

    /// A new interface. It counts as refreshing, because a launch starts the
    /// first refresh at once.
    pub fn new() -> (res: App)
        ensures
            res@ == initial_app(RepoFilterModel::All),
            res.wf(),
    {
        App::with_repo_view(RepoFilter::All)
    }

    /// A new interface with a choice of repository.
    pub fn with_repo_view(repo: RepoFilter) -> (res: App)
        ensures
            res@ == initial_app(repo@),
            res.wf(),
    {
        let warnings: Vec<String> = Vec::new();
        assert(texts(warnings@) =~= seq![]);
        App {
            list: RowList::empty(),
            filter: FilterSet::new(repo, PriorityFilter::All),
            view_mode: ViewMode::Loading,
            stale: true,
            status_warnings: warnings,
            fetched_at: None,
            detail: None,
            pinned: None,
            scroll: 0,
            max_scroll: 0,
            search: None,
            picker: None,
            search_token: 0,
            copy_token: 0,
            copying: false,
            notice: None,
            done: false,
        }
    }

    /// Shows a cached snapshot. Unlike the end of a refresh it leaves the
    /// refresh that is on its way alone.
    pub fn hydrate_from_cache(&mut self, snapshot: Snapshot)
        requires
            old(self).wf(),
        ensures
            final(self)@ == with_snapshot(old(self)@, snapshot@),
            final(self).wf(),
    {
        self.show_snapshot(snapshot);
    }

    fn show_snapshot(&mut self, snapshot: Snapshot)
        requires
            old(self).wf(),
        ensures
            final(self)@ == with_snapshot(old(self)@, snapshot@),
            final(self).wf(),
    {
        let selection: usize = self.list.selection();
        self.list = RowList::new(snapshot.rows, selection, &self.filter);
        self.fetched_at = Some(snapshot.fetched_at);
        if self.view_mode == ViewMode::Loading {
            self.view_mode = ViewMode::List;
        }
    }

    fn refilter(&mut self, filter: FilterSet)
        requires
            old(self).wf(),
        ensures
            final(self)@ == with_filter(old(self)@, filter@),
            final(self).wf(),
    {
        self.list.refilter(&filter);
        match &mut self.search {
            Some(s) => {
                s.results.refilter(&filter);
            },
            None => {},
        }
        self.filter = filter;
    }

    fn shows_results(&self) -> (res: bool)
        ensures
            res == results_shown(self@),
    {
        self.view_mode == ViewMode::Search && match &self.search {
            Some(s) => matches!(s.phase, SearchPhase::Ready),
            None => false,
        }
    }

    fn keys_on_list(&self) -> (res: bool)
        ensures
            res == on_list(self@),
    {
        self.view_mode == ViewMode::List && self.picker.is_none()
    }

    fn keys_on_results(&self) -> (res: bool)
        ensures
            res == on_results(self@),
    {
        self.shows_results() && self.picker.is_none()
    }

    fn is_editing(&self) -> (res: bool)
        ensures
            res == editing(self@),
    {
        self.view_mode == ViewMode::Search && match &self.search {
            Some(s) => matches!(s.phase, SearchPhase::Editing),
            None => false,
        }
    }

    pub(crate) fn begin_refresh(&mut self)
        requires
            old(self).wf(),
        ensures
            final(self)@ == (AppModel { stale: true, ..old(self)@ }),
            final(self).wf(),
    {
        self.stale = true;
    }

    pub(crate) fn ask_refresh(&mut self) -> (res: Vec<Effect>)
        requires
            old(self).wf(),
        ensures
            (final(self)@, effects_view(res@)) == step(old(self)@, MsgModel::Refresh),
            final(self).wf(),
    {
        if self.stale {
            no_effects()
        } else {
            self.stale = true;
            one_effect(Effect::Refresh)
        }
    }

    pub(crate) fn quit(&mut self)
        requires
            old(self).wf(),
        ensures
            final(self)@ == (AppModel { done: true, ..old(self)@ }),
            final(self).wf(),
    {
        self.done = true;
    }

    pub(crate) fn complete_refresh(&mut self, snapshot: Option<Snapshot>, warnings: Vec<String>)
        requires
            old(self).wf(),
        ensures
            final(self)@ == refresh_completed(
                old(self)@,
                match snapshot {
                    Some(s) => Some(s@),
                    None => None,
                },
                texts(warnings@),
            ),
            final(self).wf(),
    {
        match snapshot {
            Some(s) => self.show_snapshot(s),
            None => {},
        }
        self.status_warnings = warnings;
        self.stale = false;
    }

    pub(crate) fn take_detail(&mut self, id: String, detail: Result<Box<IssueDetail>, String>)
        requires
            old(self).wf(),
        ensures
            final(self)@ == detail_ready(
                old(self)@,
                id@,
                match detail {
                    Ok(d) => Ok(d@),
                    Err(m) => Err(m@),
                },
            ),
            final(self).wf(),
    {
        let bound = match &self.detail {
            Some(d) => same_text(d.id(), id.as_str()),
            None => false,
        };
        if bound {
            self.detail = Some(
                match detail {
                    Ok(loaded) => DetailState::Loaded(loaded),
                    Err(message) => DetailState::Error { id, message },
                },
            );
        }
    }

    pub(crate) fn take_results(&mut self, token: u64, rows: Result<Vec<Row>, String>)
        requires
            old(self).wf(),
        ensures
            final(self)@ == search_ready(
                old(self)@,
                token,
                match rows {
                    Ok(v) => Ok(rows_view(v@)),
                    Err(m) => Err(m@),
                },
            ),
            final(self).wf(),
    {
        let current = token == self.search_token;
        match &mut self.search {
            Some(s) => {
                if current && matches!(s.phase, SearchPhase::Pending) {
                    match rows {
                        Ok(found) => {
                            s.results = RowList::new(found, 0, &self.filter);
                            s.phase = SearchPhase::Ready;
                        },
                        Err(message) => {
                            s.phase = SearchPhase::Failed(message);
                        },
                    }
                }
            },
            None => {},
        }
    }

    pub(crate) fn take_copy(&mut self, token: u64, payload: String, summary: String) -> (res: Vec<Effect>)
        requires
            old(self).wf(),
        ensures
            (final(self)@, effects_view(res@)) == copy_ready(
                old(self)@,
                token,
                payload@,
                summary@,
            ),
            final(self).wf(),
    {
        if self.copying && token == self.copy_token {
            let mut notice = String::from_str("copied: ");
            notice.append(summary.as_str());
            self.copying = false;
            self.notice = Some(notice);
            one_effect(Effect::WriteClipboard(payload))
        } else {
            no_effects()
        }
    }

    pub(crate) fn take_persisted(&mut self, repo: RepoFilter, result: Result<(), String>)
        requires
            old(self).wf(),
        ensures
            final(self)@ == repo_view_persisted(
                old(self)@,
                repo@,
                match result {
                    Ok(()) => None,
                    Err(m) => Some(m@),
                },
            ),
            final(self).wf(),
    {
        match result {
            Ok(()) => {},
            Err(message) => {
                if self.filter.repo().same(&repo) {
                    self.notice = Some(message);
                }
            },
        }
    }

    pub(crate) fn bound_scroll(&mut self, max_scroll: usize)
        requires
            old(self).wf(),
        ensures
            final(self)@ == scroll_bounded(old(self)@, max_scroll as int),
            final(self).wf(),
    {
        if self.view_mode == ViewMode::Detail {
            self.max_scroll = max_scroll;
            if self.scroll > max_scroll {
                self.scroll = max_scroll;
            }
        }
    }

    pub(crate) fn scroll_detail(&mut self, lines: usize, down: bool)
        requires
            old(self).wf(),
        ensures
            final(self)@ == scrolled(
                old(self)@,
                if down {
                    lines as int
                } else {
                    -(lines as int)
                },
            ),
            final(self).wf(),
    {
        if self.view_mode == ViewMode::Detail {
            if down {
                let room: usize = self.max_scroll - self.scroll;
                if lines > room {
                    self.scroll = self.max_scroll;
                } else {
                    self.scroll = self.scroll + lines;
                }
            } else if lines > self.scroll {
                self.scroll = 0;
            } else {
                self.scroll = self.scroll - lines;
            }
        }
    }

    pub(crate) fn move_selection(&mut self, down: bool)
        requires
            old(self).wf(),
        ensures
            final(self)@ == moved(old(self)@, down),
            final(self).wf(),
    {
        proof {
            law_every_message_keeps_the_invariant(
                self@,
                if down {
                    MsgModel::SelectNext
                } else {
                    MsgModel::SelectPrev
                },
            );
        }
        let ghost filter = self.filter@;
        if self.keys_on_list() {
            if down {
                self.list.move_down(Ghost(filter));
            } else {
                self.list.move_up(Ghost(filter));
            }
        } else if self.keys_on_results() {
            match &mut self.search {
                Some(s) => {
                    if down {
                        s.results.move_down(Ghost(filter));
                    } else {
                        s.results.move_up(Ghost(filter));
                    }
                },
                None => {},
            }
        } else {
            self.scroll_detail(1, down);
        }
    }

    pub(crate) fn cycle_repo(&mut self)
        requires
            old(self).wf(),
        ensures
            (final(self)@, Seq::<EffectModel>::empty()) == step(
                old(self)@,
                MsgModel::CycleRepoFilter,
            ),
            final(self).wf(),
    {
        if self.keys_on_list() {
            let repo = next_repo_filter(self.list.rows(), self.filter.repo());
            let priority = self.filter.priority();
            self.refilter(FilterSet::new(repo, priority));
        }
    }

    pub(crate) fn toggle_priority(&mut self)
        requires
            old(self).wf(),
        ensures
            (final(self)@, Seq::<EffectModel>::empty()) == step(
                old(self)@,
                MsgModel::TogglePriorityFilter,
            ),
            final(self).wf(),
    {
        if self.keys_on_list() || self.keys_on_results() {
            let mut filter = self.filter.clone();
            filter.toggle_priority();
            self.refilter(filter);
        }
    }

    fn openable_row(&self) -> (res: Option<Row>)
        requires
            self.wf(),
        ensures
            opt_row(res) == openable(self@),
    {
        let ghost filter = self.filter@;
        if self.keys_on_list() {
            match self.list.selected_row(Ghost(filter)) {
                Some(row) => Some(row.clone()),
                None => None,
            }
        } else if self.keys_on_results() {
            match &self.search {
                Some(s) => match s.results.selected_row(Ghost(filter)) {
                    Some(row) => Some(row.clone()),
                    None => None,
                },
                None => None,
            }
        } else {
            None
        }
    }

    pub(crate) fn open_detail(&mut self) -> (res: Vec<Effect>)
        requires
            old(self).wf(),
        ensures
            (final(self)@, effects_view(res@)) == detail_opened(old(self)@),
            final(self).wf(),
    {
        match self.openable_row() {
            Some(row) => {
                let id = row.issue.id.clone();
                self.view_mode = ViewMode::Detail;
                self.detail = Some(DetailState::Loading { id: id.clone() });
                self.pinned = Some(row);
                self.scroll = 0;
                self.max_scroll = 0;
                one_effect(Effect::FetchDetail(id))
            },
            None => no_effects(),
        }
    }

    pub(crate) fn back_out(&mut self)
        requires
            old(self).wf(),
        ensures
            final(self)@ == backed_out(old(self)@),
            final(self).wf(),
    {
        if self.picker.is_some() {
            self.picker = None;
        } else if self.view_mode == ViewMode::Detail {
            self.view_mode = if self.search.is_some() {
                ViewMode::Search
            } else {
                ViewMode::List
            };
            self.detail = None;
            self.pinned = None;
            self.scroll = 0;
            self.max_scroll = 0;
        } else if self.view_mode == ViewMode::Search {
            self.view_mode = ViewMode::List;
            self.search = None;
        }
    }

    pub(crate) fn open_search(&mut self)
        requires
            old(self).wf(),
        ensures
            final(self)@ == search_opened(old(self)@),
            final(self).wf(),
    {
        if self.keys_on_list() || self.keys_on_results() {
            let query = String::new();
            assert(query@ =~= seq![]);
            self.view_mode = ViewMode::Search;
            self.search = Some(
                Search { query, phase: SearchPhase::Editing, results: RowList::empty() },
            );
        }
    }

    pub(crate) fn type_query(&mut self, c: char)
        requires
            old(self).wf(),
        ensures
            (final(self)@, Seq::<EffectModel>::empty()) == step(
                old(self)@,
                MsgModel::SearchInput(c),
            ),
            final(self).wf(),
    {
        if self.is_editing() {
            match &mut self.search {
                Some(s) => {
                    s.query.push(c);
                },
                None => {},
            }
        }
    }

    pub(crate) fn erase_query(&mut self)
        requires
            old(self).wf(),
        ensures
            (final(self)@, Seq::<EffectModel>::empty()) == step(
                old(self)@,
                MsgModel::SearchBackspace,
            ),
            final(self).wf(),
    {
        if self.is_editing() {
            match &mut self.search {
                Some(s) => {
                    let v = chars_of(s.query.as_str());
                    if v.len() > 0 {
                        let shorter = text_of(&v, 0, v.len() - 1);
                        assert(shorter@ =~= s.query@.drop_last());
                        s.query = shorter;
                    }
                },
                None => {},
            }
        }
    }

    pub(crate) fn submit_search(&mut self) -> (res: Vec<Effect>)
        requires
            old(self).wf(),
        ensures
            (final(self)@, effects_view(res@)) == search_submitted(old(self)@),
            final(self).wf(),
    {
        if !self.is_editing() {
            return no_effects();
        }
        let token: u64 = token_after(self.search_token);
        match &mut self.search {
            Some(s) => {
                if is_blank(s.query.as_str()) {
                    no_effects()
                } else {
                    s.phase = SearchPhase::Pending;
                    let query = s.query.clone();
                    self.search_token = token;
                    one_effect(Effect::Search { query, token })
                }
            },
            None => no_effects(),
        }
    }

    pub(crate) fn ask_copy(&mut self, markdown: bool) -> (res: Vec<Effect>)
        requires
            old(self).wf(),
        ensures
            (final(self)@, effects_view(res@)) == copy_asked(old(self)@, markdown),
            final(self).wf(),
    {
        let row = if self.view_mode == ViewMode::Detail {
            match &self.pinned {
                Some(row) => Some(row.clone()),
                None => None,
            }
        } else {
            self.openable_row()
        };
        match row {
            Some(row) => {
                let token: u64 = token_after(self.copy_token);
                self.copy_token = token;
                self.copying = true;
                one_effect(Effect::Copy { row: Box::new(row), markdown, token })
            },
            None => no_effects(),
        }
    }

    pub(crate) fn open_picker(&mut self)
        requires
            old(self).wf(),
        ensures
            final(self)@ == picker_opened(old(self)@),
            final(self).wf(),
    {
        proof {
            lemma_picker_options(held_rows(self@));
        }
        if self.keys_on_list() || self.keys_on_results() {
            let mut options: Vec<RepoFilter> = Vec::new();
            options.push(RepoFilter::All);
            assert(options_view(options@) =~= seq![RepoFilterModel::All]);
            let ghost none: Seq<RowModel> = seq![];
            add_options(&mut options, self.list.rows(), Ghost(none));
            assert(none + self@.list.rows =~= self@.list.rows);
            match &self.search {
                Some(s) => add_options(&mut options, s.results.rows(), Ghost(self@.list.rows)),
                None => {},
            }
            let ghost model = options_view(options@);
            assert(model == picker_options(held_rows(self@)));
            let pending: usize = match find_option(&options, self.filter.repo()) {
                Some(i) => i,
                None => 0,
            };
            assert(pending == option_index(model, self@.filter.repo)) by {
                let k = model.index_of(self@.filter.repo);
                if model.contains(self@.filter.repo) {
                    assert(model[k] == self@.filter.repo);
                }
            }
            self.picker = Some(Picker { options, pending });
        }
    }

    pub(crate) fn move_picker(&mut self, down: bool)
        requires
            old(self).wf(),
        ensures
            final(self)@ == picker_moved(old(self)@, down),
            final(self).wf(),
    {
        match &mut self.picker {
            Some(p) => {
                let len: usize = p.options.len();
                if down {
                    if p.pending + 1 < len {
                        p.pending = p.pending + 1;
                    }
                } else if p.pending > 0 {
                    p.pending = p.pending - 1;
                }
            },
            None => {},
        }
    }

    pub(crate) fn confirm_picker(&mut self) -> (res: Vec<Effect>)
        requires
            old(self).wf(),
        ensures
            (final(self)@, effects_view(res@)) == picker_confirmed(old(self)@),
            final(self).wf(),
    {
        let chosen = match &self.picker {
            Some(p) => {
                assert(p.model().options[p.pending as int] == p.options@[p.pending as int]@);
                Some(p.options[p.pending].clone())
            },
            None => None,
        };
        match chosen {
            Some(repo) => {
                let stored = repo.clone();
                let priority = self.filter.priority();
                self.refilter(FilterSet::new(repo, priority));
                self.picker = None;
                one_effect(Effect::PersistRepoView(stored))
            },
            None => no_effects(),
        }
    }

    // -----------------------------------------------------------------------
    // Reading the state
    // -----------------------------------------------------------------------

    /// The screen.
    pub fn view_mode(&self) -> (res: ViewMode)
        ensures
            res == self@.view,
    {
        self.view_mode
    }

    /// Every row of the ready list.
    pub fn rows(&self) -> (res: &Vec<Row>)
        ensures
            rows_view(res@) == self@.list.rows,
    {
        self.list.rows()
    }

    /// The rows of the ready list that pass the filter.
    pub fn filtered_rows(&self) -> (res: Vec<&Row>)
        requires
            self.wf(),
        ensures
            res@.map_values(|r: &Row| r@) == visible_rows(self@.list.rows, self@.filter),
    {
        shown_rows(&self.list, Ghost(self.filter@))
    }

    /// The position of the selected row among the rows that pass the filter.
    pub fn selection(&self) -> (res: Option<usize>)
        requires
            self.wf(),
        ensures
            match res {
                Some(i) => i == self@.list.selection && i < visible(
                    self@.list.rows,
                    self@.filter,
                ).len(),
                None => visible(self@.list.rows, self@.filter).len() == 0,
            },
    {
        let len: usize = self.list.shown_len(Ghost(self.filter@));
        if len == 0 {
            None
        } else {
            Some(self.list.selection())
        }
    }

    /// The selected row of the ready list.
    pub fn selected_row(&self) -> (res: Option<&Row>)
        requires
            self.wf(),
        ensures
            match res {
                Some(row) => selected(self@.list, self@.filter) == Some(row@),
                None => selected(self@.list, self@.filter) is None,
            },
    {
        self.list.selected_row(Ghost(self.filter@))
    }

    /// Whether a refresh is on its way.
    pub fn is_stale(&self) -> (res: bool)
        ensures
            res == self@.stale,
    {
        self.stale
    }

    /// The warnings of the last refresh.
    pub fn status_warnings(&self) -> (res: &Vec<String>)
        ensures
            texts(res@) == self@.warnings,
    {
        &self.status_warnings
    }

    /// Whether the user asked to quit.
    pub fn is_done(&self) -> (res: bool)
        ensures
            res == self@.done,
    {
        self.done
    }

    /// The filter.
    pub fn filter(&self) -> (res: &FilterSet)
        ensures
            res@ == self@.filter,
    {
        &self.filter
    }

    /// The choice of repository.
    pub fn repo_view(&self) -> (res: &RepoFilter)
        ensures
            res@ == self@.filter.repo,
    {
        self.filter.repo()
    }

    /// When the rows of the ready list were fetched.
    pub fn fetched_at(&self) -> (res: Option<Timestamp>)
        ensures
            (match res {
                Some(t) => Some(t@),
                None => None,
            }) == self@.fetched_at,
    {
        self.fetched_at
    }

    /// The detail pane, while it is open.
    pub fn detail(&self) -> (res: Option<&DetailState>)
        ensures
            (match res {
                Some(d) => Some(d@),
                None => None,
            }) == self@.detail,
    {
        self.detail.as_ref()
    }

    /// How far the detail pane is scrolled.
    pub fn detail_scroll(&self) -> (res: usize)
        ensures
            res == self@.scroll,
    {
        self.scroll
    }

    /// What keys mean at the moment.
    pub fn input_context(&self) -> (res: InputContext)
        ensures
            res == (if self@.picker is Some {
                InputContext::RepoPicker
            } else if editing(self@) {
                InputContext::SearchEditing
            } else {
                InputContext::Normal
            }),
            res == context_of(self@),
    {
        if self.picker.is_some() {
            InputContext::RepoPicker
        } else if self.is_editing() {
            InputContext::SearchEditing
        } else {
            InputContext::Normal
        }
    }

    /// The query, while there is a search.
    pub fn search_query(&self) -> (res: Option<&str>)
        ensures
            (match res {
                Some(q) => Some(q@),
                None => None,
            }) == (match self@.search {
                Some(s) => Some(s.query),
                None => None,
            }),
    {
        match &self.search {
            Some(s) => Some(s.query.as_str()),
            None => None,
        }
    }

    /// How far the search has come, while there is one.
    pub fn search_phase(&self) -> (res: Option<&SearchPhase>)
        ensures
            (match res {
                Some(p) => Some(p@),
                None => None,
            }) == (match self@.search {
                Some(s) => Some(s.phase),
                None => None,
            }),
    {
        match &self.search {
            Some(s) => Some(&s.phase),
            None => None,
        }
    }

    /// The search results that pass the filter, while there is a search.
    pub fn search_rows(&self) -> (res: Option<Vec<&Row>>)
        requires
            self.wf(),
        ensures
            match res {
                Some(v) => self@.search matches Some(s) && v@.map_values(|r: &Row| r@)
                    == visible_rows(s.results.rows, self@.filter),
                None => self@.search is None,
            },
    {
        match &self.search {
            Some(s) => Some(shown_rows(&s.results, Ghost(self.filter@))),
            None => None,
        }
    }

    /// The position of the selected row among the search results.
    pub fn search_selection(&self) -> (res: Option<usize>)
        requires
            self.wf(),
        ensures
            match res {
                Some(i) => self@.search matches Some(s) && i == s.results.selection && i < visible(
                    s.results.rows,
                    self@.filter,
                ).len(),
                None => match self@.search {
                    Some(s) => visible(s.results.rows, self@.filter).len() == 0,
                    None => true,
                },
            },
    {
        match &self.search {
            Some(s) => {
                let len: usize = s.results.shown_len(Ghost(self.filter@));
                if len == 0 {
                    None
                } else {
                    Some(s.results.selection())
                }
            },
            None => None,
        }
    }

    /// The picker's options and the position of the pending one, while it is
    /// open.
    pub fn picker(&self) -> (res: Option<(&Vec<RepoFilter>, usize)>)
        ensures
            match res {
                Some((options, pending)) => self@.picker matches Some(p) && options@.map_values(
                    |r: RepoFilter| r@,
                ) == p.options && pending == p.pending,
                None => self@.picker is None,
            },
    {
        match &self.picker {
            Some(p) => Some((&p.options, p.pending)),
            None => None,
        }
    }

    /// The last notice: what was copied, or what could not be stored.
    pub fn notice(&self) -> (res: Option<&str>)
        ensures
            (match res {
                Some(n) => Some(n@),
                None => None,
            }) == self@.notice,
    {
        match &self.notice {
            Some(n) => Some(n.as_str()),
            None => None,
        }
    }

    /// The generations that the held rows were attributed in.
    pub fn attribution_generations(&self) -> (res: Vec<AttributionGeneration>)
        ensures
            forall|g: nat|
                (exists|i: int| 0 <= i < res@.len() && (#[trigger] res@[i])@ == g) <==> (#[trigger]
                refers_to(self@, g)),
    {
        let mut out: Vec<AttributionGeneration> = Vec::new();
        add_generations(&mut out, self.list.rows());
        let ghost first = out@;
        match &self.search {
            Some(s) => add_generations(&mut out, s.results.rows()),
            None => {},
        }
        let ghost second = out@;
        match &self.pinned {
            Some(row) => match row.attribution_generation {
                Some(g) => {
                    out.push(g);
                    assert(out@[second.len() as int]@ == g@);
                },
                None => {},
            },
            None => {},
        }
        proof {
            assert forall|g: nat| listed(out@, g) <==> #[trigger] refers_to(self@, g) by {
                assert(listed(second, g) ==> listed(out@, g)) by {
                    if listed(second, g) {
                        let i = choose|i: int| 0 <= i < second.len() && (#[trigger] second[i])@ == g;
                        assert(out@[i]@ == g);
                    }
                }
                if listed(out@, g) && !listed(second, g) {
                    let i = choose|i: int| 0 <= i < out@.len() && (#[trigger] out@[i])@ == g;
                    if i < second.len() {
                        assert(second[i]@ == g);
                    }
                }
            }
            assert forall|g: nat|
                (exists|i: int| 0 <= i < out@.len() && (#[trigger] out@[i])@ == g) <==> (#[trigger]
                refers_to(self@, g)) by {
                assert(listed(out@, g) <==> refers_to(self@, g));
            }
        }
        out
    }
}

/// Whether a row of some rows was attributed in a generation.
pub open spec fn rows_refer(rows: Seq<RowModel>, g: nat) -> bool {
    exists|i: int| 0 <= i < rows.len() && (#[trigger] rows[i]).generation == Some(g)
}

/// Whether a row that the interface holds was attributed in a generation.
pub open spec fn refers_to(m: AppModel, g: nat) -> bool {
    ||| rows_refer(m.list.rows, g)
    ||| match m.search {
        Some(s) => rows_refer(s.results.rows, g),
        None => false,
    }
    ||| match m.pinned {
        Some(row) => row.generation == Some(g),
        None => false,
    }
}

spec fn listed(v: Seq<AttributionGeneration>, g: nat) -> bool {
    exists|i: int| 0 <= i < v.len() && (#[trigger] v[i])@ == g
}

fn add_generations(out: &mut Vec<AttributionGeneration>, rows: &Vec<Row>)
    ensures
        forall|g: nat| #[trigger]
            listed(final(out)@, g) <==> listed(old(out)@, g) || rows_refer(rows_view(rows@), g),
{
    let ghost before = out@;
    let ghost all = rows_view(rows@);
    let mut i: usize = 0;
    while i < rows.len()
        invariant
            i <= rows@.len(),
            all == rows_view(rows@),
            forall|g: nat| #[trigger]
                listed(out@, g) <==> listed(before, g) || rows_refer(all.take(i as int), g),
        decreases rows@.len() - i,
    {
        let ghost sofar = out@;
        let ghost seen = all.take(i as int);
        let ghost now = all.take(i + 1);
        assert(now =~= seen.push(rows@[i as int]@));
        match rows[i].attribution_generation {
            Some(g) => {
                let known = contains_generation(out, g);
                if !known {
                    out.push(g);
                }
            },
            None => {},
        }
        proof {
            let here = opt_generation(rows@[i as int].attribution_generation);
            assert forall|g: nat| #[trigger] listed(out@, g) <==> listed(before, g) || rows_refer(
                now,
                g,
            ) by {
                assert(rows_refer(now, g) <==> rows_refer(seen, g) || here == Some(g)) by {
                    if rows_refer(seen, g) {
                        let k = choose|k: int|
                            0 <= k < seen.len() && (#[trigger] seen[k]).generation == Some(g);
                        assert(now[k] == seen[k]);
                    }
                    if here == Some(g) {
                        assert(now[i as int].generation == Some(g));
                    }
                    if rows_refer(now, g) {
                        let k = choose|k: int|
                            0 <= k < now.len() && (#[trigger] now[k]).generation == Some(g);
                        if k < i {
                            assert(seen[k] == now[k]);
                        }
                    }
                }
                assert(listed(out@, g) <==> listed(sofar, g) || here == Some(g)) by {
                    if listed(sofar, g) {
                        let k = choose|k: int| 0 <= k < sofar.len() && (#[trigger] sofar[k])@ == g;
                        assert(out@[k]@ == g);
                    }
                    if listed(out@, g) {
                        let k = choose|k: int| 0 <= k < out@.len() && (#[trigger] out@[k])@ == g;
                        if k < sofar.len() {
                            assert(sofar[k]@ == g);
                        }
                    }
                    if here == Some(g) && !listed(sofar, g) {
                        assert(out@[sofar.len() as int]@ == g);
                    }
                }
            }
        }
        i += 1;
    }
    assert(all.take(all.len() as int) =~= all);
}

fn contains_generation(v: &Vec<AttributionGeneration>, g: AttributionGeneration) -> (res: bool)
    ensures
        res == listed(v@, g@),
{
    let mut i: usize = 0;
    while i < v.len()
        invariant
            i <= v@.len(),
            forall|k: int| 0 <= k < i ==> (#[trigger] v@[k])@ != g@,
        decreases v@.len() - i,
    {
        if v[i].value() == g.value() {
            return true;
        }
        i += 1;
    }
    false
}

fn shown_rows<'a>(list: &'a RowList, Ghost(filter): Ghost<FilterModel>) -> (res: Vec<&'a Row>)
    requires
        list.shows(filter),
    ensures
        res@.map_values(|r: &Row| r@) == visible_rows(list@.rows, filter),
{
    let mut out: Vec<&'a Row> = Vec::new();
    let len: usize = list.shown_len(Ghost(filter));
    let mut i: usize = 0;
    while i < len
        invariant
            i <= len,
            list.shows(filter),
            len == visible(list@.rows, filter).len(),
            out@.len() == i,
            forall|k: int|
                0 <= k < i ==> (#[trigger] out@[k])@ == visible_rows(list@.rows, filter)[k],
        decreases len - i,
    {
        out.push(list.shown_row(i, Ghost(filter)));
        i += 1;
    }
    assert(out@.map_values(|r: &Row| r@) =~= visible_rows(list@.rows, filter));
    out
}

impl Default for App {
    fn default() -> (res: App)
        ensures
            res@ == initial_app(RepoFilterModel::All),
            res.wf(),
    {
        App::new()
    }
}

fn copy_search(search: &Option<Search>, Ghost(filter): Ghost<FilterModel>) -> (res: Option<Search>)
    ensures
        opt_search(res) == opt_search(*search),
        match (*search, res) {
            (Some(a), Some(b)) => a.results.shows(filter) ==> b.results.shows(filter),
            (None, None) => true,
            _ => false,
        },
{
    match search {
        Some(s) => Some(
            Search { query: s.query.clone(), phase: s.phase.clone(), results: s.results.clone() },
        ),
        None => None,
    }
}

fn copy_picker(picker: &Option<Picker>) -> (res: Option<Picker>)
    ensures
        opt_picker(res) == opt_picker(*picker),
{
    match picker {
        Some(p) => {
            let mut options: Vec<RepoFilter> = Vec::new();
            let mut i: usize = 0;
            while i < p.options.len()
                invariant
                    i <= p.options@.len(),
                    options@.len() == i,
                    forall|k: int| 0 <= k < i ==> (#[trigger] options@[k])@ == p.options@[k]@,
                decreases p.options@.len() - i,
            {
                options.push(p.options[i].clone());
                i += 1;
            }
            assert(options_view(options@) =~= options_view(p.options@));
            Some(Picker { options, pending: p.pending })
        },
        None => None,
    }
}

impl Clone for App {
    fn clone(&self) -> (res: App)
        ensures
            res@ == self@,
            self.wf() ==> res.wf(),
    {
        App {
            list: self.list.clone(),
            filter: self.filter.clone(),
            view_mode: self.view_mode,
            stale: self.stale,
            status_warnings: copy_texts(&self.status_warnings),
            fetched_at: self.fetched_at,
            detail: match &self.detail {
                Some(d) => Some(d.clone()),
                None => None,
            },
            pinned: match &self.pinned {
                Some(r) => Some(r.clone()),
                None => None,
            },
            scroll: self.scroll,
            max_scroll: self.max_scroll,
            search: copy_search(&self.search, Ghost(self.filter@)),
            picker: copy_picker(&self.picker),
            search_token: self.search_token,
            copy_token: self.copy_token,
            copying: self.copying,
            notice: copy_opt_text(&self.notice),
            done: self.done,
        }
    }
}

/// A generation is referred to exactly by the rows that the interface holds: of
/// the list, of a search, or of the detail pane.
pub proof fn law_a_generation_is_referred_to_by_held_rows(m: AppModel, g: nat)
    ensures
        refers_to(m, g) <==> {
            ||| exists|i: int|
                0 <= i < held_rows(m).len() && (#[trigger] held_rows(m)[i]).generation == Some(g)
            ||| m.pinned is Some && (m.pinned->Some_0).generation == Some(g)
        },
{
    let held = held_rows(m);
    let n = m.list.rows.len() as int;
    if rows_refer(m.list.rows, g) {
        let i = choose|i: int|
            0 <= i < m.list.rows.len() && (#[trigger] m.list.rows[i]).generation == Some(g);
        assert(held[i] == m.list.rows[i]);
    }
    match m.search {
        Some(s) => {
            if rows_refer(s.results.rows, g) {
                let i = choose|i: int|
                    0 <= i < s.results.rows.len() && (#[trigger] s.results.rows[i]).generation
                        == Some(g);
                assert(held[n + i] == s.results.rows[i]);
            }
        },
        None => {},
    }
    if exists|i: int| 0 <= i < held.len() && (#[trigger] held[i]).generation == Some(g) {
        let i = choose|i: int| 0 <= i < held.len() && (#[trigger] held[i]).generation == Some(g);
        if i < n {
            assert(m.list.rows[i] == held[i]);
        } else {
            assert((m.search->Some_0).results.rows[i - n] == held[i]);
        }
    }
}

} // verus!
