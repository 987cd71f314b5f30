use fbd::app::keys::{map_key, KeyCode, KeyEvent, KeyEventKind};
use fbd::app::{App, InputContext, Msg};
use fbd::snapshot::Snapshot;
use fbd::time::Timestamp;

/// A press event.
fn press(code: KeyCode) -> KeyEvent {
    KeyEvent { code, kind: KeyEventKind::Press }
}

#[test]
fn maps_command_keys() {
    assert_eq!(
        map_key(press(KeyCode::Char('q')), InputContext::Normal),
        Some(Msg::Quit)
    );
    assert_eq!(
        map_key(press(KeyCode::Char('/')), InputContext::Normal),
        Some(Msg::OpenSearch)
    );
    assert_eq!(
        map_key(press(KeyCode::Char('r')), InputContext::Normal),
        Some(Msg::Refresh)
    );
    assert_eq!(
        map_key(press(KeyCode::Char('y')), InputContext::Normal),
        Some(Msg::CopyContext)
    );
    assert_eq!(
        map_key(press(KeyCode::Char('Y')), InputContext::Normal),
        Some(Msg::CopyMarkdown),
        "shifted Y copies the markdown block"
    );
    assert_eq!(
        map_key(press(KeyCode::Enter), InputContext::Normal),
        Some(Msg::OpenDetail)
    );
    assert_eq!(
        map_key(press(KeyCode::Esc), InputContext::Normal),
        Some(Msg::Back)
    );
}

#[test]
fn maps_navigation_keys() {
    assert_eq!(
        map_key(press(KeyCode::Char('j')), InputContext::Normal),
        Some(Msg::SelectNext)
    );
    assert_eq!(
        map_key(press(KeyCode::Down), InputContext::Normal),
        Some(Msg::SelectNext)
    );
    assert_eq!(
        map_key(press(KeyCode::Char('k')), InputContext::Normal),
        Some(Msg::SelectPrev)
    );
    assert_eq!(
        map_key(press(KeyCode::Up), InputContext::Normal),
        Some(Msg::SelectPrev)
    );
    // Shifted j/k scroll the detail pane rather than moving the selection.
    assert_eq!(
        map_key(press(KeyCode::Char('J')), InputContext::Normal),
        Some(Msg::DetailScrollDown)
    );
    assert_eq!(
        map_key(press(KeyCode::Char('K')), InputContext::Normal),
        Some(Msg::DetailScrollUp)
    );
    assert_eq!(
        map_key(press(KeyCode::PageDown), InputContext::Normal),
        Some(Msg::DetailPageDown)
    );
    assert_eq!(
        map_key(press(KeyCode::PageUp), InputContext::Normal),
        Some(Msg::DetailPageUp)
    );
    // While editing a query the same keys are literal text.
    assert_eq!(
        map_key(press(KeyCode::Char('J')), InputContext::SearchEditing),
        Some(Msg::SearchInput('J'))
    );
}

#[test]
fn maps_filter_keys() {
    assert_eq!(
        map_key(press(KeyCode::Char('f')), InputContext::Normal),
        Some(Msg::OpenRepoPicker)
    );
    assert_eq!(
        map_key(press(KeyCode::Char('p')), InputContext::Normal),
        Some(Msg::TogglePriorityFilter)
    );
}

#[test]
fn maps_search_input_keys() {
    // While editing the query, every char is text — including keys that are
    // commands otherwise (`q`, `/`, `j`) — and the special keys drive submit/
    // edit/cancel.
    assert_eq!(
        map_key(press(KeyCode::Char('f')), InputContext::SearchEditing),
        Some(Msg::SearchInput('f'))
    );
    assert_eq!(
        map_key(press(KeyCode::Char('q')), InputContext::SearchEditing),
        Some(Msg::SearchInput('q')),
        "a command key is literal text while editing"
    );
    assert_eq!(
        map_key(press(KeyCode::Char('Y')), InputContext::SearchEditing),
        Some(Msg::SearchInput('Y')),
        "a shifted copy key is literal text while editing"
    );
    assert_eq!(
        map_key(press(KeyCode::Backspace), InputContext::SearchEditing),
        Some(Msg::SearchBackspace)
    );
    assert_eq!(
        map_key(press(KeyCode::Enter), InputContext::SearchEditing),
        Some(Msg::SubmitSearch)
    );
    assert_eq!(
        map_key(press(KeyCode::Esc), InputContext::SearchEditing),
        Some(Msg::Back)
    );
    // Not editing: the same `j` is a navigation command.
    assert_eq!(
        map_key(press(KeyCode::Char('j')), InputContext::Normal),
        Some(Msg::SelectNext)
    );
}

#[test]
fn picker_context_captures_only_modal_keys_and_quit() {
    let context = InputContext::RepoPicker;
    assert_eq!(
        map_key(press(KeyCode::Char('j')), context),
        Some(Msg::RepoPickerNext)
    );
    assert_eq!(
        map_key(press(KeyCode::Down), context),
        Some(Msg::RepoPickerNext)
    );
    assert_eq!(
        map_key(press(KeyCode::Char('k')), context),
        Some(Msg::RepoPickerPrev)
    );
    assert_eq!(
        map_key(press(KeyCode::Up), context),
        Some(Msg::RepoPickerPrev)
    );
    assert_eq!(
        map_key(press(KeyCode::Enter), context),
        Some(Msg::ConfirmRepoPicker)
    );
    assert_eq!(map_key(press(KeyCode::Esc), context), Some(Msg::Back));
    assert_eq!(map_key(press(KeyCode::Char('q')), context), Some(Msg::Quit));
    assert_eq!(map_key(press(KeyCode::Char('r')), context), None);
    assert_eq!(map_key(press(KeyCode::Char('p')), context), None);
    assert_eq!(map_key(press(KeyCode::Char('/')), context), None);
}

#[test]
fn ignores_unmapped_and_release() {
    // An unmapped character.
    assert_eq!(
        map_key(press(KeyCode::Char('z')), InputContext::Normal),
        None
    );
    // A release event for an otherwise-mapped key: ignored, so a press+release
    // does not fire the message twice.
    let release = KeyEvent { code: KeyCode::Char('q'), kind: KeyEventKind::Release };
    assert_eq!(map_key(release, InputContext::Normal), None);
    assert_eq!(
        map_key(release, InputContext::SearchEditing),
        None,
        "release ignored while editing too"
    );
}

#[test]
fn pasted_query_keys_never_run_commands() {
    // A pasted `/qk` burst must open the search and type "qk": never quit on
    // `q` or move the list on `k`. Each raw key is decoded against the focus
    // at the time it is handled.
    let mut app = App::new();
    app.reduce(Msg::RefreshCompleted {
        snapshot: Some(Snapshot {
            rows: Vec::new(),
            fetched_at: Timestamp::from_unix(1_700_000_000, 0),
        }),
        warnings: Vec::new(),
    });

    for code in [KeyCode::Char('/'), KeyCode::Char('q'), KeyCode::Char('k')] {
        if let Some(msg) = map_key(press(code), app.input_context()) {
            app.reduce(msg);
        }
    }

    assert!(!app.is_done(), "the pasted 'q' typed into the query, not quit");
    assert_eq!(
        app.search_query(),
        Some("qk"),
        "the whole burst after '/' became the query text"
    );
}

#[test]
fn every_typed_character_is_text_while_editing() {
    for c in ['a', '/', 'q', '\u{1b}', '…'] {
        assert_eq!(
            map_key(press(KeyCode::Char(c)), InputContext::SearchEditing),
            Some(Msg::SearchInput(c))
        );
    }
    assert_eq!(map_key(press(KeyCode::Other), InputContext::SearchEditing), None);
    assert_eq!(map_key(press(KeyCode::Up), InputContext::SearchEditing), None);
}

#[test]
fn a_repeated_key_counts_and_a_release_never_does() {
    let code = KeyCode::Char('j');
    let repeat = KeyEvent { code, kind: KeyEventKind::Repeat };
    let release = KeyEvent { code, kind: KeyEventKind::Release };
    assert_eq!(map_key(repeat, InputContext::Normal), Some(Msg::SelectNext));
    for context in [InputContext::Normal, InputContext::SearchEditing, InputContext::RepoPicker] {
        assert_eq!(map_key(release, context), None);
    }
}
