//! What drives the interface and what it asks for.
use vstd::prelude::*;
use crate::app::filter::{RepoFilter, RepoFilterModel};
use crate::bd::types::{IssueDetail, IssueDetailModel};
use crate::snapshot::{copy_rows, rows_view, Row, RowModel, Snapshot, SnapshotModel};
use crate::text::{copy_texts, texts};

verus! {

/// A message to the interface: a decoded key, or the result of outside work.
#[derive(Debug, PartialEq, Eq)]
pub enum Msg {
    /// A refresh began.
    RefreshStarted,
    /// A refresh ended, all at once: with a snapshot, or with none where it
    /// failed; and with the warnings to show.
    RefreshCompleted { snapshot: Option<Snapshot>, warnings: Vec<String> },
    /// Fetching an issue's detail ended. The id tells which request this
    /// answers.
    DetailReady { id: String, detail: Result<Box<IssueDetail>, String> },
    /// A search ended. The token tells which request this answers.
    SearchResults { token: u64, rows: Result<Vec<Row>, String> },
    /// The text to copy is ready. The token tells which request this answers.
    Copied { token: u64, payload: String, summary: String },
    /// Storing the choice of repository ended.
    RepoViewPersisted { repo: RepoFilter, result: Result<(), String> },
    /// How far the detail pane can be scrolled.
    DetailScrollBounds { max_scroll: usize },
    /// Select the next row.
    SelectNext,
    /// Select the previous row.
    SelectPrev,
    /// Choose the next repository.
    CycleRepoFilter,
    /// Switch between all priorities and the high ones.
    TogglePriorityFilter,
    /// Ask for a refresh.
    Refresh,
    /// Open the detail pane for the selected row.
    OpenDetail,
    /// Open the search.
    OpenSearch,
    /// A character typed into the query.
    SearchInput(char),
    /// Delete the last character of the query.
    SearchBackspace,
    /// Run the query.
    SubmitSearch,
    /// Open the repository picker.
    OpenRepoPicker,
    /// Move the picker's pending choice down.
    RepoPickerNext,
    /// Move the picker's pending choice up.
    RepoPickerPrev,
    /// Confirm the picker's pending choice.
    ConfirmRepoPicker,
    /// Copy a command for the selected row.
    CopyContext,
    /// Copy a block of text about the selected row.
    CopyMarkdown,
    /// Scroll the detail pane down by a line.
    DetailScrollDown,
    /// Scroll the detail pane up by a line.
    DetailScrollUp,
    /// Scroll the detail pane down by a page.
    DetailPageDown,
    /// Scroll the detail pane up by a page.
    DetailPageUp,
    /// Leave the current sub-mode.
    Back,
    /// Quit.
    Quit,
}

/// What a [`Msg`] holds.
pub enum MsgModel {
    RefreshStarted,
    RefreshCompleted { snapshot: Option<SnapshotModel>, warnings: Seq<Seq<char>> },
    DetailReady { id: Seq<char>, detail: Result<IssueDetailModel, Seq<char>> },
    SearchResults { token: u64, rows: Result<Seq<RowModel>, Seq<char>> },
    Copied { token: u64, payload: Seq<char>, summary: Seq<char> },
    RepoViewPersisted { repo: RepoFilterModel, failure: Option<Seq<char>> },
    DetailScrollBounds { max_scroll: int },
    SelectNext,
    SelectPrev,
    CycleRepoFilter,
    TogglePriorityFilter,
    Refresh,
    OpenDetail,
    OpenSearch,
    SearchInput(char),
    SearchBackspace,
    SubmitSearch,
    OpenRepoPicker,
    RepoPickerNext,
    RepoPickerPrev,
    ConfirmRepoPicker,
    CopyContext,
    CopyMarkdown,
    DetailScrollDown,
    DetailScrollUp,
    DetailPageDown,
    DetailPageUp,
    Back,
    Quit,
}

impl View for Msg {
    type V = MsgModel;

    open spec fn view(&self) -> MsgModel {
        match self {
            Msg::RefreshStarted => MsgModel::RefreshStarted,
            Msg::RefreshCompleted { snapshot, warnings } => MsgModel::RefreshCompleted {
                snapshot: match snapshot {
                    Some(s) => Some(s@),
                    None => None,
                },
                warnings: texts(warnings@),
            },
            Msg::DetailReady { id, detail } => MsgModel::DetailReady {
                id: id@,
                detail: match detail {
                    Ok(d) => Ok(d@),
                    Err(m) => Err(m@),
                },
            },
            Msg::SearchResults { token, rows } => MsgModel::SearchResults {
                token: *token,
                rows: match rows {
                    Ok(v) => Ok(rows_view(v@)),
                    Err(m) => Err(m@),
                },
            },
            Msg::Copied { token, payload, summary } => MsgModel::Copied {
                token: *token,
                payload: payload@,
                summary: summary@,
            },
            Msg::RepoViewPersisted { repo, result } => MsgModel::RepoViewPersisted {
                repo: repo@,
                failure: match result {
                    Ok(()) => None,
                    Err(m) => Some(m@),
                },
            },
            Msg::DetailScrollBounds { max_scroll } => MsgModel::DetailScrollBounds {
                max_scroll: *max_scroll as int,
            },
            Msg::SelectNext => MsgModel::SelectNext,
            Msg::SelectPrev => MsgModel::SelectPrev,
            Msg::CycleRepoFilter => MsgModel::CycleRepoFilter,
            Msg::TogglePriorityFilter => MsgModel::TogglePriorityFilter,
            Msg::Refresh => MsgModel::Refresh,
            Msg::OpenDetail => MsgModel::OpenDetail,
            Msg::OpenSearch => MsgModel::OpenSearch,
            Msg::SearchInput(c) => MsgModel::SearchInput(*c),
            Msg::SearchBackspace => MsgModel::SearchBackspace,
            Msg::SubmitSearch => MsgModel::SubmitSearch,
            Msg::OpenRepoPicker => MsgModel::OpenRepoPicker,
            Msg::RepoPickerNext => MsgModel::RepoPickerNext,
            Msg::RepoPickerPrev => MsgModel::RepoPickerPrev,
            Msg::ConfirmRepoPicker => MsgModel::ConfirmRepoPicker,
            Msg::CopyContext => MsgModel::CopyContext,
            Msg::CopyMarkdown => MsgModel::CopyMarkdown,
            Msg::DetailScrollDown => MsgModel::DetailScrollDown,
            Msg::DetailScrollUp => MsgModel::DetailScrollUp,
            Msg::DetailPageDown => MsgModel::DetailPageDown,
            Msg::DetailPageUp => MsgModel::DetailPageUp,
            Msg::Back => MsgModel::Back,
            Msg::Quit => MsgModel::Quit,
        }
    }
}

impl Clone for Msg {
    fn clone(&self) -> (res: Msg)
        ensures
            res@ == self@,
    {
        match self {
            Msg::RefreshCompleted { snapshot, warnings } => Msg::RefreshCompleted {
                snapshot: match snapshot {
                    Some(s) => Some(s.clone()),
                    None => None,
                },
                warnings: copy_texts(warnings),
            },
            Msg::DetailReady { id, detail } => Msg::DetailReady {
                id: id.clone(),
                detail: match detail {
                    Ok(d) => Ok(Box::new((**d).clone())),
                    Err(message) => Err(message.clone()),
                },
            },
            Msg::SearchResults { token, rows } => Msg::SearchResults {
                token: *token,
                rows: match rows {
                    Ok(v) => Ok(copy_rows(v)),
                    Err(message) => Err(message.clone()),
                },
            },
            Msg::Copied { token, payload, summary } => Msg::Copied {
                token: *token,
                payload: payload.clone(),
                summary: summary.clone(),
            },
            Msg::RepoViewPersisted { repo, result } => Msg::RepoViewPersisted {
                repo: repo.clone(),
                result: match result {
                    Ok(()) => Ok(()),
                    Err(message) => Err(message.clone()),
                },
            },
            Msg::DetailScrollBounds { max_scroll } => Msg::DetailScrollBounds {
                max_scroll: *max_scroll,
            },
            Msg::SearchInput(c) => Msg::SearchInput(*c),
            Msg::RefreshStarted => Msg::RefreshStarted,
            Msg::SelectNext => Msg::SelectNext,
            Msg::SelectPrev => Msg::SelectPrev,
            Msg::CycleRepoFilter => Msg::CycleRepoFilter,
            Msg::TogglePriorityFilter => Msg::TogglePriorityFilter,
            Msg::Refresh => Msg::Refresh,
            Msg::OpenDetail => Msg::OpenDetail,
            Msg::OpenSearch => Msg::OpenSearch,
            Msg::SearchBackspace => Msg::SearchBackspace,
            Msg::SubmitSearch => Msg::SubmitSearch,
            Msg::OpenRepoPicker => Msg::OpenRepoPicker,
            Msg::RepoPickerNext => Msg::RepoPickerNext,
            Msg::RepoPickerPrev => Msg::RepoPickerPrev,
            Msg::ConfirmRepoPicker => Msg::ConfirmRepoPicker,
            Msg::CopyContext => Msg::CopyContext,
            Msg::CopyMarkdown => Msg::CopyMarkdown,
            Msg::DetailScrollDown => Msg::DetailScrollDown,
            Msg::DetailScrollUp => Msg::DetailScrollUp,
            Msg::DetailPageDown => Msg::DetailPageDown,
            Msg::DetailPageUp => Msg::DetailPageUp,
            Msg::Back => Msg::Back,
            Msg::Quit => Msg::Quit,
        }
    }
}

/// Outside work that the interface asks for.
#[derive(Debug, Clone, PartialEq, Eq)]
pub enum Effect {
    /// Run a refresh.
    Refresh,
    /// Fetch the detail of the issue with this id.
    FetchDetail(String),
    /// Run a query; answer with the token.
    Search { query: String, token: u64 },
    /// Build the text to copy for a row; answer with the token.
    Copy { row: Box<Row>, markdown: bool, token: u64 },
    /// Put a text on the clipboard.
    WriteClipboard(String),
    /// Store the choice of repository.
    PersistRepoView(RepoFilter),
}

/// What an [`Effect`] holds.
pub enum EffectModel {
    Refresh,
    FetchDetail(Seq<char>),
    Search { query: Seq<char>, token: u64 },
    Copy { row: RowModel, markdown: bool, token: u64 },
    WriteClipboard(Seq<char>),
    PersistRepoView(RepoFilterModel),
}

impl View for Effect {
    type V = EffectModel;

    open spec fn view(&self) -> EffectModel {
        match self {
            Effect::Refresh => EffectModel::Refresh,
            Effect::FetchDetail(id) => EffectModel::FetchDetail(id@),
            Effect::Search { query, token } => EffectModel::Search { query: query@, token: *token },
            Effect::Copy { row, markdown, token } => EffectModel::Copy {
                row: row@,
                markdown: *markdown,
                token: *token,
            },
            Effect::WriteClipboard(payload) => EffectModel::WriteClipboard(payload@),
            Effect::PersistRepoView(repo) => EffectModel::PersistRepoView(repo@),
        }
    }
}

/// What a list of effects holds.
pub open spec fn effects_view(v: Seq<Effect>) -> Seq<EffectModel> {
    v.map_values(|e: Effect| e@)
}

/// Which screen is shown.
#[derive(Debug, Clone, Copy, PartialEq, Eq, Structural)]
pub enum ViewMode {
    /// Before the first snapshot.
    Loading,
    /// The ready list.
    List,
    /// The detail of one issue.
    Detail,
    /// The search.
    Search,
}

/// Which keys mean what: typing a query, choosing a repository, or neither.
#[derive(Debug, Clone, Copy, PartialEq, Eq, Structural)]
pub enum InputContext {
    Normal,
    SearchEditing,
    RepoPicker,
}

/// The state of the detail pane, which is bound to one issue.
#[derive(Debug, PartialEq, Eq)]
pub enum DetailState {
    /// The detail is being fetched.
    Loading { id: String },
    /// The detail.
    Loaded(Box<IssueDetail>),
    /// Fetching the detail failed.
    Error { id: String, message: String },
}

/// What a [`DetailState`] holds.
pub enum DetailModel {
    Loading { id: Seq<char> },
    Loaded(IssueDetailModel),
    Error { id: Seq<char>, message: Seq<char> },
}

impl View for DetailState {
    type V = DetailModel;

    open spec fn view(&self) -> DetailModel {
        match self {
            DetailState::Loading { id } => DetailModel::Loading { id: id@ },
            DetailState::Loaded(detail) => DetailModel::Loaded(detail@),
            DetailState::Error { id, message } => DetailModel::Error { id: id@, message: message@ },
        }
    }
}

/// The issue that the detail pane is bound to.
pub open spec fn detail_id(d: DetailModel) -> Seq<char> {
    match d {
        DetailModel::Loading { id } => id,
        DetailModel::Loaded(detail) => detail.issue.id,
        DetailModel::Error { id, .. } => id,
    }
}

impl DetailState {
    /// The issue that the pane is bound to.
    pub fn id(&self) -> (res: &str)
        ensures
            res@ == detail_id(self@),
    {
        match self {
            DetailState::Loading { id } => id.as_str(),
            DetailState::Loaded(detail) => detail.issue.id.as_str(),
            DetailState::Error { id, .. } => id.as_str(),
        }
    }
}

impl Clone for DetailState {
    fn clone(&self) -> (res: DetailState)
        ensures
            res@ == self@,
    {
        match self {
            DetailState::Loading { id } => DetailState::Loading { id: id.clone() },
            DetailState::Loaded(detail) => DetailState::Loaded(Box::new((**detail).clone())),
            DetailState::Error { id, message } => DetailState::Error {
                id: id.clone(),
                message: message.clone(),
            },
        }
    }
}

} // verus!
