//! What can go wrong in a refresh.
use vstd::prelude::*;
use vstd::string::*;
use crate::bd::error::{bd_error_text, BdError, BdErrorModel};
use crate::path::{lossy_utf8, FsPath};

verus! {

/// The file operations around an export.
#[derive(Debug, Clone, Copy, PartialEq, Eq, Structural)]
pub enum ExportOperation {
    Reserve,
    Compare,
    Preserve,
    Publish,
    Remove,
    Validate,
}

impl ExportOperation {
    /// The operation in words.
    pub open spec fn words(self) -> Seq<char> {
        match self {
            ExportOperation::Reserve => "reserve temporary export"@,
            ExportOperation::Compare => "compare export"@,
            ExportOperation::Preserve => "preserve export metadata"@,
            ExportOperation::Publish => "publish export"@,
            ExportOperation::Remove => "remove temporary export"@,
            ExportOperation::Validate => "validate exported ids"@,
        }
    }

    /// The operation in words.
    pub fn text(&self) -> (res: &'static str)
        ensures
            res@ == self.words(),
    {
        match self {
            ExportOperation::Reserve => "reserve temporary export",
            ExportOperation::Compare => "compare export",
            ExportOperation::Preserve => "preserve export metadata",
            ExportOperation::Publish => "publish export",
            ExportOperation::Remove => "remove temporary export",
            ExportOperation::Validate => "validate exported ids",
        }
    }
}

/// The failure of one repository, which never stops the whole refresh.
#[derive(Debug, Clone, PartialEq, Eq)]
pub enum RepoError {
    /// The repository's `bd export` failed.
    Export { repo: FsPath, source: BdError },
    /// The repository's prefix could not be read or verified.
    Metadata { repo: FsPath, detail: String },
    /// A file operation around the export failed. The exported file itself is
    /// never opened for writing.
    ExportFile { repo: FsPath, operation: ExportOperation, path: FsPath, detail: String },
}

/// What a [`RepoError`] holds.
pub enum RepoErrorModel {
    Export { repo: Seq<u8>, source: BdErrorModel },
    Metadata { repo: Seq<u8>, detail: Seq<char> },
    ExportFile { repo: Seq<u8>, operation: ExportOperation, path: Seq<u8>, detail: Seq<char> },
}

impl View for RepoError {
    type V = RepoErrorModel;

    open spec fn view(&self) -> RepoErrorModel {
        match self {
            RepoError::Export { repo, source } => RepoErrorModel::Export {
                repo: repo@,
                source: source@,
            },
            RepoError::Metadata { repo, detail } => RepoErrorModel::Metadata {
                repo: repo@,
                detail: detail@,
            },
            RepoError::ExportFile { repo, operation, path, detail } => RepoErrorModel::ExportFile {
                repo: repo@,
                operation: *operation,
                path: path@,
                detail: detail@,
            },
        }
    }
}

/// What a list of repository failures holds.
pub open spec fn repo_errors_view(v: Seq<RepoError>) -> Seq<RepoErrorModel> {
    v.map_values(|e: RepoError| e@)
}

/// A repository's failure in words.
pub open spec fn repo_error_text(e: RepoErrorModel) -> Seq<char> {
    match e {
        RepoErrorModel::Export { repo, source } => "export failed for "@ + lossy_utf8(repo) + ": "@
            + bd_error_text(source),
        RepoErrorModel::Metadata { repo, detail } => "cannot read prefix for "@ + lossy_utf8(repo)
            + ": "@ + detail,
        RepoErrorModel::ExportFile { repo, operation, path, detail } => "export "@
            + operation.words() + " failed for "@ + lossy_utf8(repo) + " at "@ + lossy_utf8(path)
            + ": "@ + detail,
    }
}

impl RepoError {
    /// The failure in words.
    pub fn message(&self) -> (res: String)
        ensures
            res@ == repo_error_text(self@),
    {
        match self {
            RepoError::Export { repo, source } => {
                let mut out = String::from_str("export failed for ");
                out.append(repo.display().as_str());
                out.append(": ");
                out.append(source.message().as_str());
                out
            },
            RepoError::Metadata { repo, detail } => {
                let mut out = String::from_str("cannot read prefix for ");
                out.append(repo.display().as_str());
                out.append(": ");
                out.append(detail.as_str());
                out
            },
            RepoError::ExportFile { repo, operation, path, detail } => {
                let mut out = String::from_str("export ");
                out.append(operation.text());
                out.append(" failed for ");
                out.append(repo.display().as_str());
                out.append(" at ");
                out.append(path.display().as_str());
                out.append(": ");
                out.append(detail.as_str());
                out
            },
        }
    }
}

/// The end of a refresh that did not complete.
#[derive(Debug, PartialEq, Eq)]
pub enum RefreshError {
    /// Another instance holds the hub lock; nothing was exported or synced.
    AlreadyRefreshing,
    /// The one `bd repo sync` failed, so the hub was not updated.
    Sync(BdError),
    /// The lock file could not be opened or locked.
    Lock { path: FsPath, detail: String },
    /// The hub directory could not be prepared.
    Io { path: FsPath, detail: String },
    /// A source worker panicked; all of them were joined.
    WorkerPanic,
    /// The generation marker could not be published or read.
    Generation { path: FsPath, detail: String },
}

/// What a [`RefreshError`] holds.
pub enum RefreshErrorModel {
    AlreadyRefreshing,
    Sync(BdErrorModel),
    Lock { path: Seq<u8>, detail: Seq<char> },
    Io { path: Seq<u8>, detail: Seq<char> },
    WorkerPanic,
    Generation { path: Seq<u8>, detail: Seq<char> },
}

impl View for RefreshError {
    type V = RefreshErrorModel;

    open spec fn view(&self) -> RefreshErrorModel {
        match self {
            RefreshError::AlreadyRefreshing => RefreshErrorModel::AlreadyRefreshing,
            RefreshError::Sync(e) => RefreshErrorModel::Sync(e@),
            RefreshError::Lock { path, detail } => RefreshErrorModel::Lock {
                path: path@,
                detail: detail@,
            },
            RefreshError::Io { path, detail } => RefreshErrorModel::Io {
                path: path@,
                detail: detail@,
            },
            RefreshError::WorkerPanic => RefreshErrorModel::WorkerPanic,
            RefreshError::Generation { path, detail } => RefreshErrorModel::Generation {
                path: path@,
                detail: detail@,
            },
        }
    }
}

/// The end of a refresh in words.
pub open spec fn refresh_error_text(e: RefreshErrorModel) -> Seq<char> {
    match e {
        RefreshErrorModel::AlreadyRefreshing => "another fbd instance is refreshing this hub"@,
        RefreshErrorModel::Sync(source) => "hub sync failed: "@ + bd_error_text(source),
        RefreshErrorModel::Lock { path, detail } => "hub lock error at "@ + lossy_utf8(path)
            + ": "@ + detail,
        RefreshErrorModel::Io { path, detail } => "preparing hub dir "@ + lossy_utf8(path) + ": "@
            + detail,
        RefreshErrorModel::WorkerPanic => "a source refresh worker panicked"@,
        RefreshErrorModel::Generation { path, detail } => "hub generation marker error at "@
            + lossy_utf8(path) + ": "@ + detail,
    }
}

fn located(head: &str, path: &FsPath, detail: &str) -> (res: String)
    ensures
        res@ == head@ + lossy_utf8(path@) + ": "@ + detail@,
{
    let mut out = String::from_str(head);
    out.append(path.display().as_str());
    out.append(": ");
    out.append(detail);
    out
}

impl RefreshError {
    /// The error in words.
    pub fn message(&self) -> (res: String)
        ensures
            res@ == refresh_error_text(self@),
    {
        match self {
            RefreshError::AlreadyRefreshing => String::from_str(
                "another fbd instance is refreshing this hub",
            ),
            RefreshError::Sync(source) => {
                let mut out = String::from_str("hub sync failed: ");
                out.append(source.message().as_str());
                out
            },
            RefreshError::Lock { path, detail } => located(
                "hub lock error at ",
                path,
                detail.as_str(),
            ),
            RefreshError::Io { path, detail } => located(
                "preparing hub dir ",
                path,
                detail.as_str(),
            ),
            RefreshError::WorkerPanic => String::from_str("a source refresh worker panicked"),
            RefreshError::Generation { path, detail } => located(
                "hub generation marker error at ",
                path,
                detail.as_str(),
            ),
        }
    }
}

/// The words for a repository's failure start with what failed for which
/// repository and end with the reason.
pub proof fn law_a_repository_failure_names_repository_and_reason(e: RepoErrorModel)
    ensures
        ({
            let text = repo_error_text(e);
            match e {
                RepoErrorModel::Export { repo, source } => {
                    &&& ("export failed for "@ + lossy_utf8(repo)).is_prefix_of(text)
                    &&& bd_error_text(source).is_suffix_of(text)
                },
                RepoErrorModel::Metadata { repo, detail } => {
                    &&& ("cannot read prefix for "@ + lossy_utf8(repo)).is_prefix_of(text)
                    &&& detail.is_suffix_of(text)
                },
                RepoErrorModel::ExportFile { repo, operation, path, detail } => {
                    &&& ("export "@ + operation.words() + " failed for "@ + lossy_utf8(
                        repo,
                    )).is_prefix_of(text)
                    &&& (" at "@ + lossy_utf8(path) + ": "@ + detail).is_suffix_of(text)
                },
            }
        }),
{
    let text = repo_error_text(e);
    match e {
        RepoErrorModel::Export { repo, source } => {
            let head = "export failed for "@ + lossy_utf8(repo);
            let tail = bd_error_text(source);
            assert(text.take(head.len() as int) =~= head);
            assert(text.skip(text.len() - tail.len()) =~= tail);
        },
        RepoErrorModel::Metadata { repo, detail } => {
            let head = "cannot read prefix for "@ + lossy_utf8(repo);
            assert(text.take(head.len() as int) =~= head);
            assert(text.skip(text.len() - detail.len()) =~= detail);
        },
        RepoErrorModel::ExportFile { repo, operation, path, detail } => {
            let head = "export "@ + operation.words() + " failed for "@ + lossy_utf8(repo);
            let tail = " at "@ + lossy_utf8(path) + ": "@ + detail;
            assert(text =~= head + tail);
            assert(text.take(head.len() as int) =~= head);
            assert(text.skip(text.len() - tail.len()) =~= tail);
        },
    }
}

/// The words for the end of a refresh give the place and the reason where there
/// is one, and no two kinds of end read alike at the start.
pub proof fn law_the_end_of_a_refresh_is_explained(e: RefreshErrorModel)
    ensures
        ({
            let text = refresh_error_text(e);
            match e {
                RefreshErrorModel::AlreadyRefreshing => text
                    == "another fbd instance is refreshing this hub"@,
                RefreshErrorModel::Sync(source) => "hub sync failed: "@.is_prefix_of(text)
                    && bd_error_text(source).is_suffix_of(text),
                RefreshErrorModel::Lock { path, detail } => ("hub lock error at "@ + lossy_utf8(
                    path,
                )).is_prefix_of(text) && detail.is_suffix_of(text),
                RefreshErrorModel::Io { path, detail } => ("preparing hub dir "@ + lossy_utf8(
                    path,
                )).is_prefix_of(text) && detail.is_suffix_of(text),
                RefreshErrorModel::WorkerPanic => text == "a source refresh worker panicked"@,
                RefreshErrorModel::Generation { path, detail } => (
                "hub generation marker error at "@ + lossy_utf8(path)).is_prefix_of(text)
                    && detail.is_suffix_of(text),
            }
        }),
{
    let text = refresh_error_text(e);
    match e {
        RefreshErrorModel::Sync(source) => {
            let tail = bd_error_text(source);
            assert(text.take("hub sync failed: "@.len() as int) =~= "hub sync failed: "@);
            assert(text.skip(text.len() - tail.len()) =~= tail);
        },
        RefreshErrorModel::Lock { path, detail } => {
            let head = "hub lock error at "@ + lossy_utf8(path);
            assert(text.take(head.len() as int) =~= head);
            assert(text.skip(text.len() - detail.len()) =~= detail);
        },
        RefreshErrorModel::Io { path, detail } => {
            let head = "preparing hub dir "@ + lossy_utf8(path);
            assert(text.take(head.len() as int) =~= head);
            assert(text.skip(text.len() - detail.len()) =~= detail);
        },
        RefreshErrorModel::Generation { path, detail } => {
            let head = "hub generation marker error at "@ + lossy_utf8(path);
            assert(text.take(head.len() as int) =~= head);
            assert(text.skip(text.len() - detail.len()) =~= detail);
        },
        _ => {},
    }
}

} // verus!
