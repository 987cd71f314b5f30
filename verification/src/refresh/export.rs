//! The export of one repository, one file operation at a time.
//!
//! `bd` exports to a fresh sibling of the exported file. The sibling is then
//! either discarded, where it says the same, or put in place by one rename.
//! This module decides each next operation from the outcome of the last; the
//! caller performs it.
use vstd::prelude::*;
use vstd::string::*;
use vstd::utf8::*;
use crate::bd::cli::issues_file_name;
use crate::bd::error::{bd_result, BdError, BdErrorModel};
use crate::config::lemma_ascii_name;
use crate::io::{io_answer, io_result, IoFailure, IoFailureModel, IoKind};
use crate::path::{
    components, joined, law_join_adds_a_component, lemma_same_joined_name, parent_path, rooted,
    same_bytes, trimmed_path, FsPath, SLASH,
};
use crate::refresh::error::{repo_errors_view, ExportOperation, RepoError, RepoErrorModel};
use crate::refresh::source::failed_repo;
use crate::text::{decimal, decimal_text, lemma_same_numbers};

verus! {

/// The operation to perform next, or the failures that an export ended with.
#[derive(Debug, PartialEq, Eq)]
pub enum ExportStep {
    /// Create `candidate`, which must not exist.
    Reserve { candidate: FsPath },
    /// Let `bd` export to `temp`.
    Export { temp: FsPath },
    /// Compare `temp` with the exported file.
    Compare { temp: FsPath },
    /// Give `temp` the permissions of the exported file, if that exists.
    Preserve { temp: FsPath },
    /// Rename `temp` to the exported file.
    Publish { temp: FsPath },
    /// Remove `temp`.
    Remove { temp: FsPath, errors: Vec<RepoError> },
    /// Nothing is left to do.
    Done { errors: Vec<RepoError> },
}

/// What an [`ExportStep`] holds.
pub enum ExportStepModel {
    Reserve { candidate: Seq<u8> },
    Export { temp: Seq<u8> },
    Compare { temp: Seq<u8> },
    Preserve { temp: Seq<u8> },
    Publish { temp: Seq<u8> },
    Remove { temp: Seq<u8>, errors: Seq<RepoErrorModel> },
    Done { errors: Seq<RepoErrorModel> },
}

impl View for ExportStep {
    type V = ExportStepModel;

    open spec fn view(&self) -> ExportStepModel {
        match self {
            ExportStep::Reserve { candidate } => ExportStepModel::Reserve { candidate: candidate@ },
            ExportStep::Export { temp } => ExportStepModel::Export { temp: temp@ },
            ExportStep::Compare { temp } => ExportStepModel::Compare { temp: temp@ },
            ExportStep::Preserve { temp } => ExportStepModel::Preserve { temp: temp@ },
            ExportStep::Publish { temp } => ExportStepModel::Publish { temp: temp@ },
            ExportStep::Remove { temp, errors } => ExportStepModel::Remove {
                temp: temp@,
                errors: repo_errors_view(errors@),
            },
            ExportStep::Done { errors } => ExportStepModel::Done {
                errors: repo_errors_view(errors@),
            },
        }
    }
}

/// The outcome of the operation that a step asks for.
pub enum ExportEvent {
    /// The candidate was created or not; the number of the next candidate.
    Reserved(Result<(), IoFailureModel>, nat),
    Exported(Result<(), BdErrorModel>),
    /// Whether the two files hold the same bytes.
    Compared(Result<bool, IoFailureModel>),
    Preserved(Result<(), IoFailureModel>),
    Published(Result<(), IoFailureModel>),
    Removed(Result<(), IoFailureModel>),
}

/// Where a repository's exported issues are.
pub open spec fn issues_file(repo: Seq<u8>) -> Seq<u8> {
    joined(repo, encode_utf8(issues_file_name()))
}

/// The exported file always lies in a directory.
pub proof fn lemma_issues_file_has_parent(repo: Seq<u8>)
    ensures
        parent_path(issues_file(repo)) is Some,
{
    reveal_strlit(".beads/issues.jsonl");
    let name = issues_file_name();
    assert(is_ascii_chars(name));
    is_ascii_chars_encode_utf8(name);
    let j = issues_file(repo);
    assert(name[0] == '.');
    assert(name[18] == 'l');
    assert(name[18] as u8 == encode_utf8(name)[18]);
    assert(j.last() == encode_utf8(name)[18]);
    assert(trimmed_path(j) == j);
}

/// The name of the sibling with a given number.
pub open spec fn temp_name(process: nat, count: nat) -> Seq<char> {
    ".issues.jsonl.fbd."@ + decimal(process) + "."@ + decimal(count) + ".tmp"@
}

/// The path of the sibling with a given number.
pub open spec fn temp_file(repo: Seq<u8>, process: nat, count: nat) -> Option<Seq<u8>> {
    match parent_path(issues_file(repo)) {
        Some(dir) => Some(joined(dir, encode_utf8(temp_name(process, count)))),
        None => None,
    }
}

/// A failed file operation of a repository.
pub open spec fn file_failure(
    repo: Seq<u8>,
    operation: ExportOperation,
    path: Seq<u8>,
    error: IoFailureModel,
) -> RepoErrorModel {
    RepoErrorModel::ExportFile { repo, operation, path, detail: error.message }
}

/// The first step: nothing for a repository that does not exist, and
/// otherwise the reservation of a sibling.
pub open spec fn export_start(repo: Seq<u8>, exists: bool, process: nat, count: nat)
    -> ExportStepModel {
    match temp_file(repo, process, count) {
        Some(candidate) if exists => ExportStepModel::Reserve { candidate },
        _ => ExportStepModel::Done { errors: seq![] },
    }
}

/// The step after an outcome. An outcome of another operation than the one
/// asked for changes nothing.
pub open spec fn export_next(
    repo: Seq<u8>,
    process: nat,
    step: ExportStepModel,
    event: ExportEvent,
) -> ExportStepModel {
    match (step, event) {
        (
            ExportStepModel::Reserve { candidate },
            ExportEvent::Reserved(result, count),
        ) => match result {
            Ok(()) => ExportStepModel::Export { temp: candidate },
            Err(e) => if e.kind == IoKind::AlreadyExists {
                export_start(repo, true, process, count)
            } else {
                ExportStepModel::Done {
                    errors: seq![file_failure(repo, ExportOperation::Reserve, candidate, e)],
                }
            },
        },
        (ExportStepModel::Export { temp }, ExportEvent::Exported(result)) => match result {
            Ok(()) => ExportStepModel::Compare { temp },
            Err(source) => ExportStepModel::Remove {
                temp,
                errors: seq![RepoErrorModel::Export { repo, source }],
            },
        },
        (ExportStepModel::Compare { temp }, ExportEvent::Compared(result)) => match result {
            Ok(same) => if same {
                ExportStepModel::Remove { temp, errors: seq![] }
            } else {
                ExportStepModel::Preserve { temp }
            },
            Err(e) => ExportStepModel::Remove {
                temp,
                errors: seq![file_failure(repo, ExportOperation::Compare, temp, e)],
            },
        },
        (ExportStepModel::Preserve { temp }, ExportEvent::Preserved(result)) => match result {
            Ok(()) => ExportStepModel::Publish { temp },
            Err(e) => ExportStepModel::Remove {
                temp,
                errors: seq![file_failure(repo, ExportOperation::Preserve, temp, e)],
            },
        },
        (ExportStepModel::Publish { temp }, ExportEvent::Published(result)) => match result {
            Ok(()) => ExportStepModel::Done { errors: seq![] },
            Err(e) => ExportStepModel::Remove {
                temp,
                errors: seq![
                    file_failure(repo, ExportOperation::Publish, issues_file(repo), e),
                ],
            },
        },
        (
            ExportStepModel::Remove { temp, errors },
            ExportEvent::Removed(result),
        ) => match result {
            Ok(()) => ExportStepModel::Done { errors },
            Err(e) => if e.kind == IoKind::NotFound {
                ExportStepModel::Done { errors }
            } else {
                ExportStepModel::Done {
                    errors: errors.push(file_failure(repo, ExportOperation::Remove, temp, e)),
                }
            },
        },
        _ => step,
    }
}

/// Where a repository's exported issues are.
pub fn canonical_export(repo: &FsPath) -> (res: FsPath)
    ensures
        res@ == issues_file(repo@),
{
    repo.join_text(".beads/issues.jsonl")
}

/// The failure of a file operation.
pub fn file_error(
    repo: &FsPath,
    operation: ExportOperation,
    path: &FsPath,
    error: &IoFailure,
) -> (res: RepoError)
    ensures
        res@ == file_failure(repo@, operation, path@, error@),
{
    RepoError::ExportFile {
        repo: repo.clone(),
        operation,
        path: path.clone(),
        detail: error.message.clone(),
    }
}

fn one_error(e: RepoError) -> (res: Vec<RepoError>)
    ensures
        repo_errors_view(res@) == seq![e@],
{
    let v = vec![e];
    assert(repo_errors_view(v@) =~= seq![e@]);
    v
}

fn no_errors() -> (res: Vec<RepoError>)
    ensures
        repo_errors_view(res@) == Seq::<RepoErrorModel>::empty(),
{
    let v: Vec<RepoError> = Vec::new();
    assert(repo_errors_view(v@) =~= Seq::<RepoErrorModel>::empty());
    v
}

/// Starts the export of a repository. `count` numbers the siblings of this
/// process.
pub fn stable_export(repo: &FsPath, exists: bool, process: u32, count: u64) -> (res: ExportStep)
    ensures
        res@ == export_start(repo@, exists, process as nat, count as nat),
{
    if !exists {
        return ExportStep::Done { errors: no_errors() };
    }
    match canonical_export(repo).parent() {
        Some(dir) => {
            let mut name = String::from_str(".issues.jsonl.fbd.");
            name.append(decimal_text(process as u64).as_str());
            name.append(".");
            name.append(decimal_text(count).as_str());
            name.append(".tmp");
            ExportStep::Reserve { candidate: dir.join_text(name.as_str()) }
        },
        None => ExportStep::Done { errors: no_errors() },
    }
}

/// After creating `candidate`. Where it exists already, the next one, numbered
/// `count`, is tried.
pub fn reserved(
    repo: &FsPath,
    candidate: FsPath,
    result: Result<(), IoFailure>,
    process: u32,
    count: u64,
) -> (res: ExportStep)
    ensures
        res@ == export_next(
            repo@,
            process as nat,
            ExportStepModel::Reserve { candidate: candidate@ },
            ExportEvent::Reserved(io_result(result), count as nat),
        ),
{
    match result {
        Ok(()) => ExportStep::Export { temp: candidate },
        Err(e) => if e.kind == IoKind::AlreadyExists {
            stable_export(repo, true, process, count)
        } else {
            let error = file_error(repo, ExportOperation::Reserve, &candidate, &e);
            ExportStep::Done { errors: one_error(error) }
        },
    }
}

/// After `bd` exported to `temp`.
pub fn exported(
    repo: &FsPath,
    temp: FsPath,
    result: Result<(), BdError>,
) -> (res: ExportStep)
    ensures
        forall|process: nat|
            res@ == #[trigger] export_next(
                repo@,
                process,
                ExportStepModel::Export { temp: temp@ },
                ExportEvent::Exported(bd_result(result)),
            ),
{
    match result {
        Ok(()) => ExportStep::Compare { temp },
        Err(source) => {
            let error = RepoError::Export { repo: repo.clone(), source };
            ExportStep::Remove { temp, errors: one_error(error) }
        },
    }
}

/// After comparing `temp` with the exported file.
pub fn compared(repo: &FsPath, temp: FsPath, result: Result<bool, IoFailure>) -> (res: ExportStep)
    ensures
        forall|process: nat|
            res@ == #[trigger] export_next(
                repo@,
                process,
                ExportStepModel::Compare { temp: temp@ },
                ExportEvent::Compared(io_answer(result)),
            ),
{
    match result {
        Ok(same) => if same {
            ExportStep::Remove { temp, errors: no_errors() }
        } else {
            ExportStep::Preserve { temp }
        },
        Err(e) => {
            let error = file_error(repo, ExportOperation::Compare, &temp, &e);
            ExportStep::Remove { temp, errors: one_error(error) }
        },
    }
}

/// After giving `temp` the permissions of the exported file.
pub fn preserved(repo: &FsPath, temp: FsPath, result: Result<(), IoFailure>) -> (res: ExportStep)
    ensures
        forall|process: nat|
            res@ == #[trigger] export_next(
                repo@,
                process,
                ExportStepModel::Preserve { temp: temp@ },
                ExportEvent::Preserved(io_result(result)),
            ),
{
    match result {
        Ok(()) => ExportStep::Publish { temp },
        Err(e) => {
            let error = file_error(repo, ExportOperation::Preserve, &temp, &e);
            ExportStep::Remove { temp, errors: one_error(error) }
        },
    }
}

/// After renaming `temp` to the exported file.
pub fn published(repo: &FsPath, temp: FsPath, result: Result<(), IoFailure>) -> (res: ExportStep)
    ensures
        forall|process: nat|
            res@ == #[trigger] export_next(
                repo@,
                process,
                ExportStepModel::Publish { temp: temp@ },
                ExportEvent::Published(io_result(result)),
            ),
{
    match result {
        Ok(()) => ExportStep::Done { errors: no_errors() },
        Err(e) => {
            let canonical = canonical_export(repo);
            let error = file_error(repo, ExportOperation::Publish, &canonical, &e);
            ExportStep::Remove { temp, errors: one_error(error) }
        },
    }
}

/// After removing `temp`: one that is gone already is no failure.
pub fn removed(
    repo: &FsPath,
    temp: FsPath,
    errors: Vec<RepoError>,
    result: Result<(), IoFailure>,
) -> (res: ExportStep)
    ensures
        forall|process: nat|
            res@ == #[trigger] export_next(
                repo@,
                process,
                ExportStepModel::Remove { temp: temp@, errors: repo_errors_view(errors@) },
                ExportEvent::Removed(io_result(result)),
            ),
{
    let ghost before = errors@;
    match result {
        Ok(()) => ExportStep::Done { errors },
        Err(e) => if e.kind == IoKind::NotFound {
            ExportStep::Done { errors }
        } else {
            let mut errors = errors;
            let error = file_error(repo, ExportOperation::Remove, &temp, &e);
            let ghost last = error@;
            errors.push(error);
            assert(repo_errors_view(errors@) =~= repo_errors_view(before).push(last));
            ExportStep::Done { errors }
        },
    }
}

// ---------------------------------------------------------------------------
// Comparing files
// ---------------------------------------------------------------------------

/// What two chunks at the same place in two files say.
#[derive(Debug, Clone, Copy, PartialEq, Eq, Structural)]
pub enum ChunkVerdict {
    /// The files differ.
    Differ,
    /// Both files ended: they are the same.
    Same,
    /// The files agree so far.
    Undecided,
}

/// The verdict of two chunks.
pub open spec fn verdict_of(left: Seq<u8>, right: Seq<u8>) -> ChunkVerdict {
    if left != right {
        ChunkVerdict::Differ
    } else if left.len() == 0 {
        ChunkVerdict::Same
    } else {
        ChunkVerdict::Undecided
    }
}

/// Whether two lengths rule out that the files are the same; a file that does
/// not exist has none.
pub fn lengths_differ(left: u64, right: Option<u64>) -> (res: bool)
    ensures
        res == (right != Some(left)),
{
    match right {
        Some(n) => n != left,
        None => true,
    }
}

/// Judges two chunks that were read from the same place.
pub fn chunk_verdict(left: &Vec<u8>, right: &Vec<u8>) -> (res: ChunkVerdict)
    ensures
        res == verdict_of(left@, right@),
{
    if !same_bytes(left, right) {
        ChunkVerdict::Differ
    } else if left.len() == 0 {
        ChunkVerdict::Same
    } else {
        ChunkVerdict::Undecided
    }
}

/// Files whose chunks are judged undecided up to a last pair judged the same
/// hold the same bytes.
pub proof fn law_same_verdict_means_same_bytes(left: Seq<Seq<u8>>, right: Seq<Seq<u8>>)
    requires
        left.len() == right.len(),
        left.len() > 0,
        forall|i: int|
            0 <= i < left.len() - 1 ==> verdict_of(#[trigger] left[i], right[i])
                == ChunkVerdict::Undecided,
        verdict_of(left.last(), right.last()) == ChunkVerdict::Same,
    ensures
        left.flatten() == right.flatten(),
{
    assert(left =~= right);
}

// ---------------------------------------------------------------------------
// Laws
// ---------------------------------------------------------------------------

/// The step after a sequence of outcomes.
pub open spec fn export_after(
    repo: Seq<u8>,
    process: nat,
    start: ExportStepModel,
    events: Seq<ExportEvent>,
) -> ExportStepModel
    decreases events.len(),
{
    if events.len() == 0 {
        start
    } else {
        export_next(
            repo,
            process,
            export_after(repo, process, start, events.drop_last()),
            events.last(),
        )
    }
}

/// Whether a run got as far as creating its sibling.
pub open spec fn holds_temp(step: ExportStepModel) -> bool {
    !(step is Reserve) && !(step is Done)
}

/// The exported file is replaced only by a sibling that `bd` filled, that says
/// something else, and that has been given the permissions: a run asks for the
/// rename only after these three outcomes.
pub proof fn law_only_a_changed_export_is_published(
    repo: Seq<u8>,
    process: nat,
    count: nat,
    events: Seq<ExportEvent>,
)
    requires
        export_after(repo, process, export_start(repo, true, process, count), events) is Publish,
    ensures
        exists|i: int, j: int, k: int|
            0 <= i < j < k < events.len() && (#[trigger] events[i] matches ExportEvent::Exported(Ok(_)))
                && #[trigger] events[j] == ExportEvent::Compared(Ok(false)) && (#[trigger] events[k] matches ExportEvent::Preserved(Ok(_))),
{
    lemma_history(repo, process, count, events);
}

spec fn saw_export(events: Seq<ExportEvent>) -> bool {
    exists|i: int|
        0 <= i < events.len() && (#[trigger] events[i] matches ExportEvent::Exported(Ok(_)))
}

spec fn saw_change(events: Seq<ExportEvent>) -> bool {
    exists|i: int, j: int|
        0 <= i < j < events.len() && (#[trigger] events[i] matches ExportEvent::Exported(Ok(_)))
            && #[trigger] events[j] == ExportEvent::Compared(Ok(false))
}

spec fn saw_preserved(events: Seq<ExportEvent>) -> bool {
    exists|i: int, j: int, k: int|
        0 <= i < j < k < events.len() && (#[trigger] events[i] matches ExportEvent::Exported(Ok(_)))
            && #[trigger] events[j] == ExportEvent::Compared(Ok(false)) && (#[trigger] events[k] matches ExportEvent::Preserved(Ok(_)))
}

spec fn saw_same(events: Seq<ExportEvent>) -> bool {
    exists|i: int, j: int|
        0 <= i < j < events.len() && (#[trigger] events[i] matches ExportEvent::Exported(Ok(_)))
            && #[trigger] events[j] == ExportEvent::Compared(Ok(true))
}

spec fn saw_published(events: Seq<ExportEvent>) -> bool {
    exists|i: int|
        0 <= i < events.len() && (#[trigger] events[i] matches ExportEvent::Published(Ok(_)))
}

spec fn history(step: ExportStepModel, events: Seq<ExportEvent>) -> bool {
    match step {
        ExportStepModel::Compare { .. } => saw_export(events),
        ExportStepModel::Preserve { .. } => saw_change(events),
        ExportStepModel::Publish { .. } => saw_preserved(events),
        ExportStepModel::Remove { errors, .. } => errors.len() == 0 ==> saw_same(events),
        ExportStepModel::Done { errors } => errors.len() == 0 ==> saw_same(events) || (
        saw_preserved(events) && saw_published(events)),
        _ => true,
    }
}

proof fn lemma_saw_monotone(events: Seq<ExportEvent>)
    requires
        events.len() > 0,
    ensures
        saw_export(events.drop_last()) ==> saw_export(events),
        saw_change(events.drop_last()) ==> saw_change(events),
        saw_preserved(events.drop_last()) ==> saw_preserved(events),
        saw_same(events.drop_last()) ==> saw_same(events),
        saw_published(events.drop_last()) ==> saw_published(events),
{
    let rest = events.drop_last();
    assert forall|i: int| 0 <= i < rest.len() implies #[trigger] rest[i] == events[i] by {}
    if saw_export(rest) {
        let i = choose|i: int|
            0 <= i < rest.len() && (#[trigger] rest[i] matches ExportEvent::Exported(Ok(_)));
        assert((events[i] matches ExportEvent::Exported(Ok(_))));
    }
    if saw_change(rest) {
        let (i, j) = choose|i: int, j: int|
            0 <= i < j < rest.len() && (#[trigger] rest[i] matches ExportEvent::Exported(Ok(_)))
                && #[trigger] rest[j] == ExportEvent::Compared(Ok(false));
        assert(events[i] == rest[i] && events[j] == rest[j]);
    }
    if saw_same(rest) {
        let (i, j) = choose|i: int, j: int|
            0 <= i < j < rest.len() && (#[trigger] rest[i] matches ExportEvent::Exported(Ok(_)))
                && #[trigger] rest[j] == ExportEvent::Compared(Ok(true));
        assert(events[i] == rest[i] && events[j] == rest[j]);
    }
    if saw_preserved(rest) {
        let (i, j, k) = choose|i: int, j: int, k: int|
            0 <= i < j < k < rest.len() && (#[trigger] rest[i] matches ExportEvent::Exported(Ok(_)))
                && #[trigger] rest[j] == ExportEvent::Compared(Ok(false)) && (#[trigger] rest[k] matches ExportEvent::Preserved(Ok(_)));
        assert(events[i] == rest[i] && events[j] == rest[j] && events[k] == rest[k]);
    }
    if saw_published(rest) {
        let i = choose|i: int|
            0 <= i < rest.len() && (#[trigger] rest[i] matches ExportEvent::Published(Ok(_)));
        assert(events[i] == rest[i]);
    }
}

proof fn lemma_history(
    repo: Seq<u8>,
    process: nat,
    count: nat,
    events: Seq<ExportEvent>,
)
    ensures
        history(
            export_after(repo, process, export_start(repo, true, process, count), events),
            events,
        ),
    decreases events.len(),
{
    let start = export_start(repo, true, process, count);
    lemma_issues_file_has_parent(repo);
    if events.len() > 0 {
        let rest = events.drop_last();
        let last = events.last();
        let n = events.len() - 1;
        lemma_history(repo, process, count, rest);
        lemma_saw_monotone(events);
        let before = export_after(repo, process, start, rest);
        let now = export_after(repo, process, start, events);
        assert(now == export_next(repo, process, before, last));
        assert(events[n] == last);
        assert forall|i: int| 0 <= i < n implies #[trigger] rest[i] == events[i] by {}
        if before is Compare && last == ExportEvent::Compared(Ok(false)) {
            let i = choose|i: int|
                0 <= i < rest.len() && (#[trigger] rest[i] matches ExportEvent::Exported(Ok(_)));
            assert(events[i] == rest[i] && events[n] == last);
        }
        if before is Compare && last == ExportEvent::Compared(Ok(true)) {
            let i = choose|i: int|
                0 <= i < rest.len() && (#[trigger] rest[i] matches ExportEvent::Exported(Ok(_)));
            assert(events[i] == rest[i] && events[n] == last);
        }
        if before is Preserve && (last matches ExportEvent::Preserved(Ok(_))) {
            let (i, j) = choose|i: int, j: int|
                0 <= i < j < rest.len() && (#[trigger] rest[i] matches ExportEvent::Exported(Ok(_)))
                    && #[trigger] rest[j] == ExportEvent::Compared(Ok(false));
            assert(events[i] == rest[i] && events[j] == rest[j] && events[n] == last);
        }
    }
}

/// A run that ends without a failure leaves the exported file up to date: `bd`
/// exported, and then either the two files agreed or the sibling took the
/// file's place.
pub proof fn law_a_clean_export_is_up_to_date(
    repo: Seq<u8>,
    process: nat,
    count: nat,
    events: Seq<ExportEvent>,
)
    requires
        export_after(repo, process, export_start(repo, true, process, count), events)
            == (ExportStepModel::Done { errors: seq![] }),
    ensures
        exists|i: int|
            0 <= i < events.len() && (#[trigger] events[i] matches ExportEvent::Exported(Ok(_))),
        exists|j: int|
            0 <= j < events.len() && (#[trigger] events[j] == ExportEvent::Compared(Ok(true))
                || (events[j] matches ExportEvent::Published(Ok(_)))),
{
    lemma_history(repo, process, count, events);
    if saw_same(events) {
        let (i, j) = choose|i: int, j: int|
            0 <= i < j < events.len() && (#[trigger] events[i] matches ExportEvent::Exported(Ok(_)))
                && #[trigger] events[j] == ExportEvent::Compared(Ok(true));
        assert((events[i] matches ExportEvent::Exported(Ok(_))));
        assert(events[j] == ExportEvent::Compared(Ok(true)));
    } else {
        let (i, j, k) = choose|i: int, j: int, k: int|
            0 <= i < j < k < events.len() && (#[trigger] events[i] matches ExportEvent::Exported(Ok(_)))
                && #[trigger] events[j] == ExportEvent::Compared(Ok(false)) && (#[trigger] events[k] matches ExportEvent::Preserved(Ok(_)));
        assert((events[i] matches ExportEvent::Exported(Ok(_))));
        let m = choose|m: int|
            0 <= m < events.len() && (#[trigger] events[m] matches ExportEvent::Published(Ok(_)));
        assert((events[m] matches ExportEvent::Published(Ok(_))));
    }
}

/// The sibling never stays behind unnoticed: from a step that holds one, a run
/// ends only with the rename or with the attempt to remove it.
pub proof fn law_a_sibling_is_renamed_or_removed(
    repo: Seq<u8>,
    process: nat,
    step: ExportStepModel,
    event: ExportEvent,
)
    requires
        holds_temp(step),
        export_next(repo, process, step, event) is Done,
    ensures
        (event matches ExportEvent::Published(Ok(_))) || event is Removed,
        event matches ExportEvent::Removed(Err(e)) && e.kind != IoKind::NotFound ==> (export_next(
            repo,
            process,
            step,
            event,
        )->Done_errors).len() > 0,
{
}

/// A reserved sibling stays the one that the run works on.
pub proof fn law_a_run_keeps_its_sibling(
    repo: Seq<u8>,
    process: nat,
    step: ExportStepModel,
    event: ExportEvent,
)
    requires
        holds_temp(step),
        holds_temp(export_next(repo, process, step, event)),
    ensures
        temp_of(export_next(repo, process, step, event)) == temp_of(step),
{
}

/// The sibling that a step works on.
pub open spec fn temp_of(step: ExportStepModel) -> Option<Seq<u8>> {
    match step {
        ExportStepModel::Export { temp } => Some(temp),
        ExportStepModel::Compare { temp } => Some(temp),
        ExportStepModel::Preserve { temp } => Some(temp),
        ExportStepModel::Publish { temp } => Some(temp),
        ExportStepModel::Remove { temp, .. } => Some(temp),
        _ => None,
    }
}

/// The failures that a step has met so far.
pub open spec fn errors_of(step: ExportStepModel) -> Seq<RepoErrorModel> {
    match step {
        ExportStepModel::Remove { errors, .. } => errors,
        ExportStepModel::Done { errors } => errors,
        _ => seq![],
    }
}

/// Whether an outcome is a failure. A sibling's name that is taken is none, for
/// another is tried; nor is a sibling that is already gone.
pub open spec fn is_failure(event: ExportEvent) -> bool {
    match event {
        ExportEvent::Reserved(Err(e), _) => e.kind != IoKind::AlreadyExists,
        ExportEvent::Exported(Err(_)) => true,
        ExportEvent::Compared(Err(_)) => true,
        ExportEvent::Preserved(Err(_)) => true,
        ExportEvent::Published(Err(_)) => true,
        ExportEvent::Removed(Err(e)) => e.kind != IoKind::NotFound,
        _ => false,
    }
}

/// A run reports a failure only where a step failed, at most one for each, and
/// every one of them names the repository. Without a failing outcome the list
/// stays as it is.
pub proof fn law_an_export_reports_only_failures(
    repo: Seq<u8>,
    process: nat,
    step: ExportStepModel,
    event: ExportEvent,
)
    ensures
        ({
            let before = errors_of(step);
            let after = errors_of(export_next(repo, process, step, event));
            &&& before.is_prefix_of(after)
            &&& after.len() <= before.len() + 1
            &&& !is_failure(event) ==> after == before
            &&& after.len() > before.len() ==> failed_repo(after.last()) == repo
        }),
{
    lemma_issues_file_has_parent(repo);
    let before = errors_of(step);
    let after = errors_of(export_next(repo, process, step, event));
    assert(before =~= after.subrange(0, before.len() as int));
    if !is_failure(event) {
        assert(after =~= before);
    }
}

/// Where every step succeeds, an export ends clean: a sibling that says the same
/// as the exported file is removed, and one that says something else takes its
/// place after it was given the permissions. Where a sibling's name is taken, the
/// next one is tried. A repository that does not exist is left alone.
pub proof fn law_an_export_without_failures_ends_clean(
    repo: Seq<u8>,
    process: nat,
    count: nat,
    temp: Seq<u8>,
    next_count: nat,
    taken: IoFailureModel,
)
    ensures
        export_start(repo, false, process, count) == (ExportStepModel::Done { errors: seq![] }),
        export_start(repo, true, process, count) is Reserve,
        export_next(
            repo,
            process,
            ExportStepModel::Reserve { candidate: temp },
            ExportEvent::Reserved(Ok(()), next_count),
        ) == (ExportStepModel::Export { temp }),
        taken.kind == IoKind::AlreadyExists ==> {
            let again = export_next(
                repo,
                process,
                ExportStepModel::Reserve { candidate: temp },
                ExportEvent::Reserved(Err(taken), next_count),
            );
            again is Reserve && Some(again->candidate) == temp_file(repo, process, next_count)
        },
        export_next(
            repo,
            process,
            ExportStepModel::Export { temp },
            ExportEvent::Exported(Ok(())),
        ) == (ExportStepModel::Compare { temp }),
        export_next(
            repo,
            process,
            ExportStepModel::Compare { temp },
            ExportEvent::Compared(Ok(true)),
        ) == (ExportStepModel::Remove { temp, errors: seq![] }),
        export_next(
            repo,
            process,
            ExportStepModel::Compare { temp },
            ExportEvent::Compared(Ok(false)),
        ) == (ExportStepModel::Preserve { temp }),
        export_next(
            repo,
            process,
            ExportStepModel::Preserve { temp },
            ExportEvent::Preserved(Ok(())),
        ) == (ExportStepModel::Publish { temp }),
        export_next(
            repo,
            process,
            ExportStepModel::Publish { temp },
            ExportEvent::Published(Ok(())),
        ) == (ExportStepModel::Done { errors: seq![] }),
        export_next(
            repo,
            process,
            ExportStepModel::Remove { temp, errors: seq![] },
            ExportEvent::Removed(Ok(())),
        ) == (ExportStepModel::Done { errors: seq![] }),
{
    lemma_issues_file_has_parent(repo);
}

/// Every step that fails ends the run with that failure as its last one, after
/// the sibling was removed where there is one.
pub proof fn law_a_failed_step_ends_an_export(
    repo: Seq<u8>,
    process: nat,
    step: ExportStepModel,
    event: ExportEvent,
)
    requires
        is_failure(event),
        match step {
            ExportStepModel::Reserve { .. } => event is Reserved,
            ExportStepModel::Export { .. } => event is Exported,
            ExportStepModel::Compare { .. } => event is Compared,
            ExportStepModel::Preserve { .. } => event is Preserved,
            ExportStepModel::Publish { .. } => event is Published,
            ExportStepModel::Remove { .. } => event is Removed,
            ExportStepModel::Done { .. } => false,
        },
    ensures
        ({
            let next = export_next(repo, process, step, event);
            &&& errors_of(next).len() == errors_of(step).len() + 1
            &&& step is Reserve || step is Remove ==> next is Done
            &&& !(step is Reserve) && !(step is Remove) ==> next is Remove && temp_of(next)
                == temp_of(step)
        }),
{
}

/// Two chunks differ where their bytes do; two empty ones show that the files
/// ended together, and any others that agree decide nothing.
pub proof fn law_a_verdict_compares_bytes(left: Seq<u8>, right: Seq<u8>)
    ensures
        verdict_of(left, right) == ChunkVerdict::Differ <==> left != right,
        verdict_of(left, right) == ChunkVerdict::Same <==> left.len() == 0 && right.len() == 0,
        verdict_of(left, right) == ChunkVerdict::Undecided <==> left == right && left.len() > 0,
{
    if left.len() == 0 && right.len() == 0 {
        assert(left =~= right);
    }
}

/// A repository's exported issues lie in its own `bd` directory, and the sibling
/// with another number is another file in the same directory.
pub proof fn law_exports_lie_in_the_repository(repo: Seq<u8>, p: nat, c: nat, q: nat, d: nat)
    ensures
        components(issues_file(repo)) == components(repo).push(encode_utf8(".beads"@)).push(
            encode_utf8("issues.jsonl"@),
        ),
        temp_file(repo, p, c) is Some,
        temp_file(repo, p, c) == temp_file(repo, q, d) ==> p == q && c == d,
{
    reveal_strlit(".beads/issues.jsonl");
    reveal_strlit(".beads");
    reveal_strlit("issues.jsonl");
    let (a, b) = (".beads"@, "issues.jsonl"@);
    lemma_ascii_name(a);
    lemma_ascii_name(b);
    let slash = seq!['/'];
    let name = issues_file_name();
    assert(name =~= a + slash + b);
    let (x, y) = (encode_utf8(a), encode_utf8(b));
    let whole = encode_utf8(name);
    assert(is_ascii_chars(name) && is_ascii_chars(a) && is_ascii_chars(b));
    is_ascii_chars_encode_utf8(name);
    is_ascii_chars_encode_utf8(a);
    is_ascii_chars_encode_utf8(b);
    assert(whole =~= x.push(SLASH) + y) by {
        assert forall|i: int| 0 <= i < whole.len() implies whole[i] == (x.push(SLASH) + y)[i] by {
            assert(whole[i] == name[i] as u8);
            if i < 6 {
                assert(x[i] == a[i] as u8);
            } else if i > 6 {
                assert(y[i - 7] == b[i - 7] as u8);
            }
        }
    }
    assert(!rooted(x)) by {
        if rooted(x) {
            assert(x.contains(x[0]));
        }
    }
    assert(!rooted(y)) by {
        if rooted(y) {
            assert(y.contains(y[0]));
        }
    }
    assert(whole[0] == x[0]);
    let dir = joined(repo, x);
    assert(dir.last() != SLASH) by {
        assert(dir.last() == x[x.len() - 1]);
        assert(x.contains(x[x.len() - 1]));
    }
    assert(issues_file(repo) =~= joined(dir, y));
    law_join_adds_a_component(repo, x);
    law_join_adds_a_component(dir, y);
    lemma_issues_file_has_parent(repo);
    if temp_file(repo, p, c) == temp_file(repo, q, d) {
        let parent = parent_path(issues_file(repo))->Some_0;
        reveal_strlit(".issues.jsonl.fbd.");
        lemma_same_joined_name(parent, temp_name(p, c), temp_name(q, d));
        lemma_same_numbers(".issues.jsonl.fbd."@, p, c, q, d);
    }
}

} // verus!
