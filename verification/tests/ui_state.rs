use fbd::app::RepoFilter;
use fbd::path::FsPath;
use fbd::ui_state::{
    load, save, schema_for, validate, ParsedUiState, StoredRepository, UiSchema, UiState, VERSION,
};

/// Reads a state file the way the program does, from its text.
fn parse(text: Option<&str>) -> ParsedUiState {
    let Some(value) = text.and_then(|t| serde_json::from_str::<serde_json::Value>(t).ok()) else {
        return ParsedUiState::Unreadable;
    };
    let Some(version) = value.get("version").and_then(|v| v.as_u64()) else {
        return ParsedUiState::Unreadable;
    };
    let repository = value.get("repository");
    match schema_for(version) {
        UiSchema::Legacy => ParsedUiState::Legacy {
            name: repository.and_then(|r| r.as_str()).map(str::to_string),
        },
        UiSchema::Current => ParsedUiState::Current {
            repository: match repository {
                None => None,
                Some(r) if r.is_null() => None,
                Some(r) if r.as_str() == Some("Unknown") => Some(StoredRepository::Unknown),
                Some(r) => Some(StoredRepository::Prefix(
                    r["Prefix"].as_str().expect("a prefix").to_string(),
                )),
            },
        },
        UiSchema::Unsupported => ParsedUiState::Unreadable,
    }
}

/// The text of a state file.
fn render(state: &UiState) -> String {
    let repository = match &state.repository {
        None => "null".to_string(),
        Some(StoredRepository::Unknown) => "\"Unknown\"".to_string(),
        Some(StoredRepository::Prefix(p)) => format!("{{\"Prefix\":\"{p}\"}}"),
    };
    format!("{{\"version\":{},\"repository\":{repository}}}", state.version)
}

#[test]
fn missing_corrupt_and_unsupported_state_load_all_repos() {
    assert_eq!(load(parse(None)), RepoFilter::All);
    assert_eq!(load(parse(Some("{not json"))), RepoFilter::All);
    assert_eq!(load(parse(Some(r#"{"version":999,"repository":"repo-a"}"#))), RepoFilter::All);
}

#[test]
fn all_and_one_repository_round_trip() {
    for repo in [
        RepoFilter::All,
        RepoFilter::Only("repo-a".into()),
        RepoFilter::Unknown,
    ] {
        let state = save(&repo);
        assert_eq!(state.version, VERSION);
        assert_eq!(load(parse(Some(&render(&state)))), repo);
    }
}

#[test]
fn migrates_unambiguous_v1_repository_preferences() {
    assert_eq!(
        load(parse(Some(r#"{"version":1,"repository":"repo-a"}"#))),
        RepoFilter::Only("repo-a".into())
    );
    assert_eq!(
        load(parse(Some(r#"{"version":1,"repository":"unknown"}"#))),
        RepoFilter::All,
        "legacy unknown could mean a real prefix or the unattributed bucket"
    );
    assert_eq!(load(parse(Some(r#"{"version":1}"#))), RepoFilter::All);
}

#[test]
fn validation_names_what_is_wrong() {
    let path = FsPath::new("/old/ui_state.json");
    assert_eq!(validate(&path, Some(1), true), Ok(()));
    assert_eq!(validate(&path, Some(2), true), Ok(()));
    assert_eq!(
        validate(&path, None, true),
        Err("parsing UI state header /old/ui_state.json".to_string())
    );
    assert_eq!(
        validate(&path, Some(3), true),
        Err("unsupported UI state version 3".to_string())
    );
    assert_eq!(
        validate(&path, Some(2), false),
        Err("parsing version 2 UI state /old/ui_state.json".to_string())
    );
}

#[test]
fn schemas_follow_the_version() {
    assert_eq!(schema_for(0), UiSchema::Unsupported);
    assert_eq!(schema_for(1), UiSchema::Legacy);
    assert_eq!(schema_for(2), UiSchema::Current);
    assert_eq!(schema_for(3), UiSchema::Unsupported);
}
