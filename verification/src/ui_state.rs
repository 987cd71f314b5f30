//! The preferences that outlive a session: the chosen repository.
//!
//! Preferences are never needed for a launch. Whatever cannot be read means
//! every repository.
use vstd::prelude::*;
use vstd::string::*;
use crate::app::filter::{RepoFilter, RepoFilterModel};
use crate::path::{lossy_utf8, FsPath};
use crate::snapshot::UNKNOWN_REPO;
use crate::text::{decimal, decimal_text, opt_text, same_text};

verus! {

/// The version of the stored preferences.
pub const VERSION: u64 = 2;

/// A stored choice of repository.
#[derive(Debug, PartialEq, Eq)]
pub enum StoredRepository {
    Prefix(String),
    Unknown,
}

/// What a [`StoredRepository`] holds.
pub enum StoredModel {
    Prefix(Seq<char>),
    Unknown,
}

impl View for StoredRepository {
    type V = StoredModel;

    open spec fn view(&self) -> StoredModel {
        match self {
            StoredRepository::Prefix(p) => StoredModel::Prefix(p@),
            StoredRepository::Unknown => StoredModel::Unknown,
        }
    }
}

/// The stored preferences.
#[derive(Debug, PartialEq, Eq)]
pub struct UiState {
    pub version: u64,
    pub repository: Option<StoredRepository>,
}

/// What the preferences file was found to hold.
#[derive(Debug, PartialEq, Eq)]
pub enum ParsedUiState {
    /// There is no file, or it holds no preferences.
    Unreadable,
    /// The first version: a repository's name, if one was chosen.
    Legacy { name: Option<String> },
    /// The current version.
    Current { repository: Option<StoredRepository> },
}

/// What a [`ParsedUiState`] holds.
pub enum ParsedModel {
    Unreadable,
    Legacy { name: Option<Seq<char>> },
    Current { repository: Option<StoredModel> },
}

pub open spec fn opt_stored(o: Option<StoredRepository>) -> Option<StoredModel> {
    match o {
        Some(s) => Some(s@),
        None => None,
    }
}

impl View for ParsedUiState {
    type V = ParsedModel;

    open spec fn view(&self) -> ParsedModel {
        match self {
            ParsedUiState::Unreadable => ParsedModel::Unreadable,
            ParsedUiState::Legacy { name } => ParsedModel::Legacy { name: opt_text(*name) },
            ParsedUiState::Current { repository } => ParsedModel::Current {
                repository: opt_stored(*repository),
            },
        }
    }
}

/// The form in which preferences of some version are stored.
#[derive(Debug, Clone, Copy, PartialEq, Eq, Structural)]
pub enum UiSchema {
    Legacy,
    Current,
    Unsupported,
}

/// The form of a version.
pub open spec fn schema_of(version: u64) -> UiSchema {
    if version == 1 {
        UiSchema::Legacy
    } else if version == VERSION {
        UiSchema::Current
    } else {
        UiSchema::Unsupported
    }
}

/// The form of a version.
pub fn schema_for(version: u64) -> (res: UiSchema)
    ensures
        res == schema_of(version),
{
    if version == 1 {
        UiSchema::Legacy
    } else if version == VERSION {
        UiSchema::Current
    } else {
        UiSchema::Unsupported
    }
}

/// The choice that stored preferences stand for. In the first version the
/// name `unknown` was ambiguous and means every repository.
pub open spec fn restored(state: ParsedModel) -> RepoFilterModel {
    match state {
        ParsedModel::Unreadable => RepoFilterModel::All,
        ParsedModel::Legacy { name } => match name {
            Some(prefix) if prefix != UNKNOWN_REPO@ => RepoFilterModel::Only(prefix),
            _ => RepoFilterModel::All,
        },
        ParsedModel::Current { repository } => match repository {
            Some(StoredModel::Prefix(prefix)) => RepoFilterModel::Only(prefix),
            Some(StoredModel::Unknown) => RepoFilterModel::Unknown,
            None => RepoFilterModel::All,
        },
    }
}

/// How a choice is stored.
pub open spec fn storable(repo: RepoFilterModel) -> Option<StoredModel> {
    match repo {
        RepoFilterModel::All => None,
        RepoFilterModel::Only(prefix) => Some(StoredModel::Prefix(prefix)),
        RepoFilterModel::Unknown => Some(StoredModel::Unknown),
    }
}

/// The choice that stored preferences stand for.
pub fn load(state: ParsedUiState) -> (res: RepoFilter)
    ensures
        res@ == restored(state@),
{
    match state {
        ParsedUiState::Unreadable => RepoFilter::All,
        ParsedUiState::Legacy { name } => match name {
            Some(prefix) => if same_text(prefix.as_str(), UNKNOWN_REPO) {
                RepoFilter::All
            } else {
                RepoFilter::Only(prefix)
            },
            None => RepoFilter::All,
        },
        ParsedUiState::Current { repository } => match repository {
            Some(StoredRepository::Prefix(prefix)) => RepoFilter::Only(prefix),
            Some(StoredRepository::Unknown) => RepoFilter::Unknown,
            None => RepoFilter::All,
        },
    }
}

/// The preferences to store for a choice.
pub fn save(repo: &RepoFilter) -> (res: UiState)
    ensures
        res.version == VERSION,
        opt_stored(res.repository) == storable(repo@),
{
    let repository = match repo {
        RepoFilter::All => None,
        RepoFilter::Only(prefix) => Some(StoredRepository::Prefix(prefix.clone())),
        RepoFilter::Unknown => Some(StoredRepository::Unknown),
    };
    UiState { version: VERSION, repository }
}

/// What is wrong with preferences that are to be taken over: nothing where the
/// version is known and the rest can be read in the form of that version.
/// `version` is none where not even the version can be read.
pub open spec fn validation(path: Seq<u8>, version: Option<u64>, readable: bool) -> Option<
    Seq<char>,
> {
    match version {
        None => Some("parsing UI state header "@ + lossy_utf8(path)),
        Some(v) => match schema_of(v) {
            UiSchema::Unsupported => Some("unsupported UI state version "@ + decimal(v as nat)),
            _ => if readable {
                None
            } else {
                Some("parsing version "@ + decimal(v as nat) + " UI state "@ + lossy_utf8(path))
            },
        },
    }
}

/// Tells preferences that cannot be read from those that choose every
/// repository.
pub fn validate(path: &FsPath, version: Option<u64>, readable: bool) -> (res: Result<(), String>)
    ensures
        match validation(path@, version, readable) {
            None => res is Ok,
            Some(message) => res matches Err(m) && m@ == message,
        },
{
    match version {
        None => {
            let mut out = String::from_str("parsing UI state header ");
            out.append(path.display().as_str());
            Err(out)
        },
        Some(v) => match schema_for(v) {
            UiSchema::Unsupported => {
                let mut out = String::from_str("unsupported UI state version ");
                out.append(decimal_text(v).as_str());
                Err(out)
            },
            _ => if readable {
                Ok(())
            } else {
                let mut out = String::from_str("parsing version ");
                out.append(decimal_text(v).as_str());
                out.append(" UI state ");
                out.append(path.display().as_str());
                Err(out)
            },
        },
    }
}

/// A stored choice is the choice that the next launch restores.
pub proof fn law_a_stored_choice_is_restored(repo: RepoFilterModel)
    ensures
        restored(ParsedModel::Current { repository: storable(repo) }) == repo,
{
}

/// A name stored by the first version is kept, unless it is the ambiguous one.
pub proof fn law_legacy_choices_are_kept(prefix: Seq<char>)
    ensures
        restored(ParsedModel::Legacy { name: Some(prefix) }) == if prefix == UNKNOWN_REPO@ {
            RepoFilterModel::All
        } else {
            RepoFilterModel::Only(prefix)
        },
{
}

/// Without preferences that can be read, or without a choice in them, every
/// repository is shown.
pub proof fn law_no_choice_means_every_repository(state: ParsedModel)
    ensures
        state is Unreadable ==> restored(state) == RepoFilterModel::All,
        state == (ParsedModel::Legacy { name: None }) ==> restored(state) == RepoFilterModel::All,
        restored(state) == RepoFilterModel::Unknown ==> state == (ParsedModel::Current {
            repository: Some(StoredModel::Unknown),
        }),
        restored(state) matches RepoFilterModel::Only(prefix) ==> state == (ParsedModel::Current {
            repository: Some(StoredModel::Prefix(prefix)),
        }) || state == (ParsedModel::Legacy { name: Some(prefix) }),
{
}

/// Preferences are taken over exactly where their version is the first or the
/// second and the rest can be read in its form.
pub proof fn law_only_readable_preferences_are_valid(
    path: Seq<u8>,
    version: Option<u64>,
    readable: bool,
)
    ensures
        validation(path, version, readable) is None <==> readable && (version == Some(1u64)
            || version == Some(2u64)),
{
}

} // verus!
