//! The one transition of the interface.
use vstd::prelude::*;
use crate::app::messages::{effects_view, Effect, Msg};
use crate::app::model::{step, DETAIL_PAGE};
use crate::app::state::{no_effects, App};

verus! {

impl App {
    /// Applies a message and returns the outside work that it asks for.
    pub fn reduce(&mut self, msg: Msg) -> (res: Vec<Effect>)
        requires
            old(self).wf(),
        ensures
            (final(self)@, effects_view(res@)) == step(old(self)@, msg@),
            final(self).wf(),
    {
        match msg {
            Msg::RefreshStarted => {
                self.begin_refresh();
                no_effects()
            },
            Msg::RefreshCompleted { snapshot, warnings } => {
                self.complete_refresh(snapshot, warnings);
                no_effects()
            },
            Msg::DetailReady { id, detail } => {
                self.take_detail(id, detail);
                no_effects()
            },
            Msg::SearchResults { token, rows } => {
                self.take_results(token, rows);
                no_effects()
            },
            Msg::Copied { token, payload, summary } => self.take_copy(token, payload, summary),
            Msg::RepoViewPersisted { repo, result } => {
                self.take_persisted(repo, result);
                no_effects()
            },
            Msg::DetailScrollBounds { max_scroll } => {
                self.bound_scroll(max_scroll);
                no_effects()
            },
            Msg::SelectNext => {
                self.move_selection(true);
                no_effects()
            },
            Msg::SelectPrev => {
                self.move_selection(false);
                no_effects()
            },
            Msg::CycleRepoFilter => {
                self.cycle_repo();
                no_effects()
            },
            Msg::TogglePriorityFilter => {
                self.toggle_priority();
                no_effects()
            },
            Msg::Refresh => self.ask_refresh(),
            Msg::OpenDetail => self.open_detail(),
            Msg::OpenSearch => {
                self.open_search();
                no_effects()
            },
            Msg::SearchInput(c) => {
                self.type_query(c);
                no_effects()
            },
            Msg::SearchBackspace => {
                self.erase_query();
                no_effects()
            },
            Msg::SubmitSearch => self.submit_search(),
            Msg::OpenRepoPicker => {
                self.open_picker();
                no_effects()
            },
            Msg::RepoPickerNext => {
                self.move_picker(true);
                no_effects()
            },
            Msg::RepoPickerPrev => {
                self.move_picker(false);
                no_effects()
            },
            Msg::ConfirmRepoPicker => self.confirm_picker(),
            Msg::CopyContext => self.ask_copy(false),
            Msg::CopyMarkdown => self.ask_copy(true),
            Msg::DetailScrollDown => {
                self.scroll_detail(1, true);
                no_effects()
            },
            Msg::DetailScrollUp => {
                self.scroll_detail(1, false);
                no_effects()
            },
            Msg::DetailPageDown => {
                self.scroll_detail(DETAIL_PAGE, true);
                no_effects()
            },
            Msg::DetailPageUp => {
                self.scroll_detail(DETAIL_PAGE, false);
                no_effects()
            },
            Msg::Back => {
                self.back_out();
                no_effects()
            },
            Msg::Quit => {
                self.quit();
                no_effects()
            },
        }
    }
}

} // verus!
