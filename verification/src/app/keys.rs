//! What the keys mean.
use vstd::prelude::*;
use crate::app::filter::PriorityFilter;
use crate::app::list::visible;
use crate::app::messages::{EffectModel, InputContext, Msg, MsgModel, ViewMode};
use crate::app::model::{
    app_ok, context_of, copyable, editing, on_list, on_results, openable, step, AppModel,
};
use crate::text::trimmed;

verus! {

/// A key of the keyboard.
#[derive(Debug, Clone, Copy, PartialEq, Eq, Structural)]
pub enum KeyCode {
    Char(char),
    Backspace,
    Enter,
    Esc,
    Up,
    Down,
    PageUp,
    PageDown,
    /// Any key without a meaning here.
    Other,
}

/// Whether a key went down, repeats, or went up.
#[derive(Debug, Clone, Copy, PartialEq, Eq, Structural)]
pub enum KeyEventKind {
    Press,
    Repeat,
    Release,
}

/// Something that happened to a key.
#[derive(Debug, Clone, Copy, PartialEq, Eq, Structural)]
pub struct KeyEvent {
    pub code: KeyCode,
    pub kind: KeyEventKind,
}

/// What a key means while a query is typed: every character is text.
pub open spec fn typing_key(code: KeyCode) -> Option<MsgModel> {
    match code {
        KeyCode::Char(c) => Some(MsgModel::SearchInput(c)),
        KeyCode::Backspace => Some(MsgModel::SearchBackspace),
        KeyCode::Enter => Some(MsgModel::SubmitSearch),
        KeyCode::Esc => Some(MsgModel::Back),
        _ => None,
    }
}

/// What a key means while the repository picker is open.
pub open spec fn picker_key(code: KeyCode) -> Option<MsgModel> {
    match code {
        KeyCode::Char('q') => Some(MsgModel::Quit),
        KeyCode::Char('j') => Some(MsgModel::RepoPickerNext),
        KeyCode::Down => Some(MsgModel::RepoPickerNext),
        KeyCode::Char('k') => Some(MsgModel::RepoPickerPrev),
        KeyCode::Up => Some(MsgModel::RepoPickerPrev),
        KeyCode::Enter => Some(MsgModel::ConfirmRepoPicker),
        KeyCode::Esc => Some(MsgModel::Back),
        _ => None,
    }
}

/// What a key means otherwise.
pub open spec fn command_key(code: KeyCode) -> Option<MsgModel> {
    match code {
        KeyCode::Char('q') => Some(MsgModel::Quit),
        KeyCode::Char('/') => Some(MsgModel::OpenSearch),
        KeyCode::Char('r') => Some(MsgModel::Refresh),
        KeyCode::Char('y') => Some(MsgModel::CopyContext),
        KeyCode::Char('Y') => Some(MsgModel::CopyMarkdown),
        KeyCode::Char('f') => Some(MsgModel::OpenRepoPicker),
        KeyCode::Char('p') => Some(MsgModel::TogglePriorityFilter),
        KeyCode::Char('j') => Some(MsgModel::SelectNext),
        KeyCode::Down => Some(MsgModel::SelectNext),
        KeyCode::Char('k') => Some(MsgModel::SelectPrev),
        KeyCode::Up => Some(MsgModel::SelectPrev),
        KeyCode::Char('J') => Some(MsgModel::DetailScrollDown),
        KeyCode::Char('K') => Some(MsgModel::DetailScrollUp),
        KeyCode::PageDown => Some(MsgModel::DetailPageDown),
        KeyCode::PageUp => Some(MsgModel::DetailPageUp),
        KeyCode::Enter => Some(MsgModel::OpenDetail),
        KeyCode::Esc => Some(MsgModel::Back),
        _ => None,
    }
}

/// What a key event means in a context. Letting go of a key means nothing.
pub open spec fn key_meaning(event: KeyEvent, context: InputContext) -> Option<MsgModel> {
    if event.kind == KeyEventKind::Release {
        None
    } else {
        match context {
            InputContext::SearchEditing => typing_key(event.code),
            InputContext::RepoPicker => picker_key(event.code),
            InputContext::Normal => command_key(event.code),
        }
    }
}

/// Decodes a key event in a context.
pub fn map_key(event: KeyEvent, context: InputContext) -> (res: Option<Msg>)
    ensures
        (match res {
            Some(msg) => Some(msg@),
            None => None,
        }) == key_meaning(event, context),
{
    if event.kind == KeyEventKind::Release {
        return None;
    }
    match context {
        InputContext::SearchEditing => match event.code {
            KeyCode::Char(c) => Some(Msg::SearchInput(c)),
            KeyCode::Backspace => Some(Msg::SearchBackspace),
            KeyCode::Enter => Some(Msg::SubmitSearch),
            KeyCode::Esc => Some(Msg::Back),
            _ => None,
        },
        InputContext::RepoPicker => match event.code {
            KeyCode::Char('q') => Some(Msg::Quit),
            KeyCode::Char('j') | KeyCode::Down => Some(Msg::RepoPickerNext),
            KeyCode::Char('k') | KeyCode::Up => Some(Msg::RepoPickerPrev),
            KeyCode::Enter => Some(Msg::ConfirmRepoPicker),
            KeyCode::Esc => Some(Msg::Back),
            _ => None,
        },
        InputContext::Normal => match event.code {
            KeyCode::Char('q') => Some(Msg::Quit),
            KeyCode::Char('/') => Some(Msg::OpenSearch),
            KeyCode::Char('r') => Some(Msg::Refresh),
            KeyCode::Char('y') => Some(Msg::CopyContext),
            KeyCode::Char('Y') => Some(Msg::CopyMarkdown),
            KeyCode::Char('f') => Some(Msg::OpenRepoPicker),
            KeyCode::Char('p') => Some(Msg::TogglePriorityFilter),
            KeyCode::Char('j') | KeyCode::Down => Some(Msg::SelectNext),
            KeyCode::Char('k') | KeyCode::Up => Some(Msg::SelectPrev),
            KeyCode::Char('J') => Some(Msg::DetailScrollDown),
            KeyCode::Char('K') => Some(Msg::DetailScrollUp),
            KeyCode::PageDown => Some(Msg::DetailPageDown),
            KeyCode::PageUp => Some(Msg::DetailPageUp),
            KeyCode::Enter => Some(Msg::OpenDetail),
            KeyCode::Esc => Some(Msg::Back),
            _ => None,
        },
    }
}

/// While a query is typed, no character is a command: each one is text.
pub proof fn law_typed_characters_are_text(c: char, kind: KeyEventKind)
    requires
        kind != KeyEventKind::Release,
    ensures
        key_meaning(KeyEvent { code: KeyCode::Char(c), kind }, InputContext::SearchEditing) == Some(
            MsgModel::SearchInput(c),
        ),
{
}

/// A press and the release that follows it mean what the press means.
pub proof fn law_releases_mean_nothing(code: KeyCode, context: InputContext)
    ensures
        key_meaning(KeyEvent { code, kind: KeyEventKind::Release }, context) is None,
        key_meaning(KeyEvent { code, kind: KeyEventKind::Repeat }, context) == key_meaning(
            KeyEvent { code, kind: KeyEventKind::Press },
            context,
        ),
{
}

/// The state and the effects after a key was pressed.
pub open spec fn pressed(m: AppModel, code: KeyCode) -> (AppModel, Seq<EffectModel>) {
    match key_meaning(KeyEvent { code, kind: KeyEventKind::Press }, context_of(m)) {
        Some(msg) => step(m, msg),
        None => (m, seq![]),
    }
}

/// `j` goes down and `k` goes up, by one, in whatever has the keys: the list,
/// search results, the picker or the detail pane. The arrow keys do the same.
/// Each undoes the other where it moved at all.
pub proof fn law_j_goes_down_and_k_goes_up(m: AppModel)
    requires
        app_ok(m),
        !editing(m),
    ensures
        ({
            let down = pressed(m, KeyCode::Char('j')).0;
            let up = pressed(m, KeyCode::Char('k')).0;
            &&& pressed(m, KeyCode::Down) == pressed(m, KeyCode::Char('j'))
            &&& pressed(m, KeyCode::Up) == pressed(m, KeyCode::Char('k'))
            &&& down != m ==> pressed(down, KeyCode::Char('k')).0 == m
            &&& up != m ==> pressed(up, KeyCode::Char('j')).0 == m
            &&& on_list(m) ==> {
                &&& m.list.selection + 1 < visible(m.list.rows, m.filter).len()
                    ==> down.list.selection == m.list.selection + 1
                &&& m.list.selection > 0 ==> up.list.selection == m.list.selection - 1
            }
            &&& on_results(m) ==> {
                let r = (m.search->Some_0).results;
                &&& r.selection + 1 < visible(r.rows, m.filter).len() ==> (
                down.search->Some_0).results.selection == r.selection + 1
                &&& r.selection > 0 ==> (up.search->Some_0).results.selection == r.selection - 1
            }
            &&& m.picker matches Some(p) ==> {
                &&& p.pending + 1 < p.options.len() ==> (down.picker->Some_0).pending == p.pending
                    + 1
                &&& p.pending > 0 ==> (up.picker->Some_0).pending == p.pending - 1
            }
            &&& m.view == ViewMode::Detail ==> {
                &&& m.scroll < m.max_scroll ==> down.scroll == m.scroll + 1
                &&& m.scroll > 0 ==> up.scroll == m.scroll - 1
            }
        }),
{
}

/// What the command keys bring about, on the list and on search results.
pub proof fn law_command_keys_do_what_they_promise(m: AppModel)
    requires
        app_ok(m),
        on_list(m) || on_results(m),
    ensures
        editing(pressed(m, KeyCode::Char('/')).0),
        pressed(m, KeyCode::Char('f')).0.picker is Some,
        pressed(m, KeyCode::Char('f')).0.filter == m.filter,
        pressed(m, KeyCode::Char('p')).0.filter.priority == PriorityFilter::HighOnly
            <==> m.filter.priority == PriorityFilter::All,
        pressed(m, KeyCode::Char('r')).1 == if m.stale {
            Seq::<EffectModel>::empty()
        } else {
            seq![EffectModel::Refresh]
        },
        openable(m) matches Some(row) ==> {
            let (after, effects) = pressed(m, KeyCode::Enter);
            after.view == ViewMode::Detail && effects == seq![
                EffectModel::FetchDetail(row.issue.id),
            ]
        },
        pressed(m, KeyCode::Char('q')).0.done,
        on_results(m) ==> on_list(pressed(m, KeyCode::Esc).0),
        on_list(m) ==> pressed(m, KeyCode::Esc).0 == m,
{
}

/// `y` copies a command and `Y` a block of text, about the row in view, and
/// neither moves anything.
pub proof fn law_copy_keys_copy_the_row_in_view(m: AppModel)
    requires
        app_ok(m),
        context_of(m) == InputContext::Normal,
    ensures
        copyable(m) is None ==> pressed(m, KeyCode::Char('y')).1.len() == 0 && pressed(
            m,
            KeyCode::Char('Y'),
        ).1.len() == 0,
        copyable(m) matches Some(row) ==> {
            let (a, command) = pressed(m, KeyCode::Char('y'));
            let (b, block) = pressed(m, KeyCode::Char('Y'));
            &&& command == seq![
                EffectModel::Copy { row, markdown: false, token: a.copy_token },
            ]
            &&& block == seq![EffectModel::Copy { row, markdown: true, token: b.copy_token }]
            &&& a.list == m.list && a.view == m.view && a.search == m.search
            &&& b == a
        },
{
}

/// An open picker has every key: confirming and leaving both close it, only
/// confirming changes the filter, and no other key reaches what lies beneath.
pub proof fn law_the_picker_has_every_key(m: AppModel, code: KeyCode)
    requires
        app_ok(m),
        m.picker is Some,
    ensures
        ({
            let p = m.picker->Some_0;
            let (after, effects) = pressed(m, code);
            &&& code == KeyCode::Enter ==> after.picker is None && after.filter.repo
                == p.options[p.pending] && effects == seq![
                EffectModel::PersistRepoView(p.options[p.pending]),
            ]
            &&& code == KeyCode::Esc ==> after == (AppModel { picker: None, ..m })
            &&& after.done <==> m.done || code == KeyCode::Char('q')
            &&& code != KeyCode::Enter ==> effects.len() == 0 && after.list == m.list
                && after.filter == m.filter && after.search == m.search && after.view == m.view
            &&& code != KeyCode::Enter && code != KeyCode::Esc ==> after.picker is Some && (
            after.picker->Some_0).options == p.options
        }),
{
}

/// While a query is typed, Enter runs it, Esc leaves for the list, and no key
/// ends the program or touches the list.
pub proof fn law_typing_has_every_key(m: AppModel, code: KeyCode)
    requires
        app_ok(m),
        editing(m),
        m.picker is None,
    ensures
        ({
            let q = (m.search->Some_0).query;
            let (after, effects) = pressed(m, code);
            &&& after.done == m.done && after.list == m.list && after.filter == m.filter
            &&& code == KeyCode::Enter && trimmed(q).len() > 0 ==> effects == seq![
                EffectModel::Search { query: q, token: after.search_token },
            ]
            &&& code != KeyCode::Enter ==> effects.len() == 0
            &&& code == KeyCode::Esc ==> on_list(after) && after.search is None
            &&& code == KeyCode::Backspace && q.len() > 0 ==> (after.search->Some_0).query
                == q.drop_last()
            &&& code is Char ==> editing(after) && (after.search->Some_0).query == q.push(
                code->Char_0,
            )
        }),
{
}

/// In the detail pane `J`, `K` and the page keys scroll: down is the direction
/// of `J` and of page down.
pub proof fn law_scroll_keys_scroll_the_detail(m: AppModel)
    requires
        app_ok(m),
        m.view == ViewMode::Detail,
    ensures
        pressed(m, KeyCode::Char('J')) == pressed(m, KeyCode::Char('j')),
        pressed(m, KeyCode::Char('K')) == pressed(m, KeyCode::Char('k')),
        pressed(m, KeyCode::PageDown).0.scroll == if m.max_scroll - m.scroll >= 10 {
            m.scroll + 10
        } else {
            m.max_scroll
        },
        pressed(m, KeyCode::PageUp).0.scroll == if m.scroll >= 10 {
            m.scroll - 10
        } else {
            0
        },
        pressed(m, KeyCode::Esc).0.view != ViewMode::Detail,
        pressed(m, KeyCode::Char('q')).0.done,
{
}

/// A key without a meaning does nothing anywhere.
pub proof fn law_other_keys_do_nothing(m: AppModel)
    ensures
        pressed(m, KeyCode::Other) == (m, Seq::<EffectModel>::empty()),
        !editing(m) || m.picker is Some ==> pressed(m, KeyCode::Backspace) == (
            m,
            Seq::<EffectModel>::empty(),
        ),
{
}

} // verus!
