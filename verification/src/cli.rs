//! The commands without a terminal interface: which `bd` is accepted, what each
//! command prints, and what makes it fail.
use vstd::prelude::*;
use vstd::string::*;
use vstd::utf8::*;
use crate::bd::error::{bd_error_text, BdError, BdErrorModel};
use crate::bd::types::{issues_view, BdVersion, Issue};
use crate::cache::clear;
use crate::config::{lemma_own_names, paths_below, Config, Paths, PathsModel};
use crate::disk::{at, at_or_below, is_tree, keeps, Disk};
use crate::hub::{
    hub_beads_dir, hub_beads_path, hub_dir, hub_error_text, hub_path,
    law_a_reset_spares_the_users_files, reset, reset_targets, spared, HubError, HubErrorModel,
    HubStatus,
};
use crate::io::{io_result, IoFailure, IoFailureModel, IoKind, Probe, ProbeModel};
use crate::path::{components, joined, law_join_adds_a_component, lossy_utf8, FsPath};
use crate::refresh::error::{
    refresh_error_text, repo_error_text, repo_errors_view, RefreshError, RefreshErrorModel,
    RepoErrorModel,
};
use crate::refresh::pipeline::RefreshOutcome;
use crate::refresh::prefix_map::{collisions_view, map_of, CollisionModel, PrefixMap, PrefixMapModel};
use crate::snapshot::{
    attribute, attributed_snapshot, Row, RowModel, Snapshot, SnapshotModel, UNKNOWN_REPO,
};
use crate::text::{
    all_digits, chars_of, control, decimal, decimal_text, is_digit,
    law_a_written_number_is_read_back, law_decimal_reads_back, law_sanitized_is_inert,
    lemma_lines_parted, lemma_one_line, lines_of, opt_text, parse_u64,
    parsed_u64, sanitize, sanitized, signed_decimal, signed_text, texts, trim, trimmed,
};
use crate::time::Timestamp;

verus! {

/// A fatal failure of a command.
#[derive(Debug, PartialEq, Eq)]
pub enum CliError {
    /// The installed `bd` is not accepted.
    VersionGate(String),
    /// The hub could not be made ready.
    Hub(HubError),
    /// The refresh did not complete.
    Refresh(RefreshError),
    /// A `bd` call failed.
    Bd(BdError),
    /// Reading or writing failed.
    Io(String),
}

/// What a [`CliError`] holds.
pub enum CliErrorModel {
    VersionGate(Seq<char>),
    Hub(HubErrorModel),
    Refresh(RefreshErrorModel),
    Bd(BdErrorModel),
    Io(Seq<char>),
}

impl View for CliError {
    type V = CliErrorModel;

    open spec fn view(&self) -> CliErrorModel {
        match self {
            CliError::VersionGate(m) => CliErrorModel::VersionGate(m@),
            CliError::Hub(e) => CliErrorModel::Hub(e@),
            CliError::Refresh(e) => CliErrorModel::Refresh(e@),
            CliError::Bd(e) => CliErrorModel::Bd(e@),
            CliError::Io(m) => CliErrorModel::Io(m@),
        }
    }
}

/// A fatal failure in words.
pub open spec fn cli_error_text(e: CliErrorModel) -> Seq<char> {
    match e {
        CliErrorModel::VersionGate(message) => message,
        CliErrorModel::Hub(source) => hub_error_text(source),
        CliErrorModel::Refresh(source) => refresh_error_text(source),
        CliErrorModel::Bd(source) => bd_error_text(source),
        CliErrorModel::Io(detail) => "writing output: "@ + detail,
    }
}

impl CliError {
    /// The failure in words.
    pub fn message(&self) -> (res: String)
        ensures
            res@ == cli_error_text(self@),
    {
        match self {
            CliError::VersionGate(message) => message.clone(),
            CliError::Hub(source) => source.message(),
            CliError::Refresh(source) => source.message(),
            CliError::Bd(source) => source.message(),
            CliError::Io(detail) => {
                let mut out = String::from_str("writing output: ");
                out.append(detail.as_str());
                out
            },
        }
    }
}

// ---------------------------------------------------------------------------
// Rows
// ---------------------------------------------------------------------------

/// A row without its repository.
pub open spec fn row_body(row: RowModel) -> Seq<char> {
    "P"@ + signed_decimal(row.issue.priority) + " "@ + sanitized(row.issue.id) + " "@ + sanitized(
        row.issue.title,
    )
}

/// A row on one line.
pub open spec fn row_line(row: RowModel) -> Seq<char> {
    "["@ + sanitized(row.repo_name) + "] "@ + row_body(row)
}

/// Formats a row without its repository.
pub fn format_row_body(row: &Row) -> (res: String)
    ensures
        res@ == row_body(row@),
{
    let mut out = String::from_str("P");
    out.append(signed_text(row.issue.priority).as_str());
    out.append(" ");
    out.append(sanitize(row.issue.id.as_str()).as_str());
    out.append(" ");
    out.append(sanitize(row.issue.title.as_str()).as_str());
    out
}

/// Formats a row on one line. Text that comes from a repository is freed of
/// control characters, so that it can neither start another line nor drive the
/// terminal.
pub fn format_row(row: &Row) -> (res: String)
    ensures
        res@ == row_line(row@),
        ("["@ + sanitized(row.repo_name@) + "] P"@ + signed_decimal(row.issue.priority as int)
            + " "@ + sanitized(row.issue.id@)).is_prefix_of(res@),
        ends_in(res@, " "@ + sanitized(row.issue.title@)),
{
    proof {
        lemma_row_parts(row@);
    }
    let mut out = String::from_str("[");
    out.append(sanitize(row.repo_name.as_str()).as_str());
    out.append("] ");
    out.append(format_row_body(row).as_str());
    out
}

// ---------------------------------------------------------------------------
// The version gate
// ---------------------------------------------------------------------------

/// Where the numbers of a version end: at the first `-` or `+`.
pub open spec fn core_end(s: Seq<char>) -> int
    decreases s.len(),
{
    if s.len() == 0 || s[0] == '-' || s[0] == '+' {
        0
    } else {
        1 + core_end(s.drop_first())
    }
}

/// The parts of a text between its dots; one without dots is one part.
pub open spec fn dotted_parts(s: Seq<char>) -> Seq<Seq<char>>
    decreases s.len(),
{
    if s.len() == 0 {
        seq![seq![]]
    } else {
        let before = dotted_parts(s.drop_last());
        if s.last() == '.' {
            before.push(seq![])
        } else {
            before.drop_last().push(before.last().push(s.last()))
        }
    }
}

/// The three numbers of a version, which have to be there; a suffix after `-`
/// or `+` and further parts are ignored.
pub open spec fn version_numbers(s: Seq<char>) -> Option<(u64, u64, u64)> {
    let parts = dotted_parts(s.take(core_end(s)));
    if parts.len() < 3 {
        None
    } else {
        match (
            parsed_u64(trimmed(parts[0])),
            parsed_u64(trimmed(parts[1])),
            parsed_u64(trimmed(parts[2])),
        ) {
            (Some(major), Some(minor), Some(patch)) => Some((major, minor, patch)),
            _ => None,
        }
    }
}

/// Whether a version is 1.1.0 or later.
pub open spec fn at_least_minimum(v: (u64, u64, u64)) -> bool {
    v.0 > 1 || (v.0 == 1 && v.1 >= 1)
}

/// Whether a `bd` is accepted.
pub open spec fn accepted(version: Seq<char>, schema: int) -> bool {
    schema == 1 && match version_numbers(version) {
        Some(v) => at_least_minimum(v),
        None => false,
    }
}

/// Why a `bd` is not accepted.
pub open spec fn gate_text(version: Seq<char>, schema: int) -> Seq<char> {
    "fbd requires bd >= 1.1.0 with schema_version 1, but found bd "@ + version
        + " (schema_version "@ + signed_decimal(schema)
        + "). Upgrade bd (https://github.com/gastownhall/beads)."@
}

proof fn lemma_core_end(s: Seq<char>)
    ensures
        0 <= core_end(s) <= s.len(),
    decreases s.len(),
{
    if s.len() > 0 {
        lemma_core_end(s.drop_first());
    }
}

proof fn lemma_dotted_parts(s: Seq<char>)
    ensures
        dotted_parts(s).len() > 0,
    decreases s.len(),
{
    if s.len() > 0 {
        lemma_dotted_parts(s.drop_last());
    }
}

fn split_dots(v: &Vec<char>, end: usize) -> (res: Vec<String>)
    requires
        end <= v.len(),
    ensures
        texts(res@) == dotted_parts(v@.take(end as int)),
{
    let mut parts: Vec<String> = Vec::new();
    let mut current = String::new();
    let mut i: usize = 0;
    assert(current@ =~= seq![]);
    assert(texts(parts@).push(current@) =~= dotted_parts(v@.take(0)));
    while i < end
        invariant
            i <= end <= v.len(),
            texts(parts@).push(current@) == dotted_parts(v@.take(i as int)),
        decreases end - i,
    {
        let ghost before = parts@;
        let ghost part = current@;
        assert(v@.take(i + 1).drop_last() =~= v@.take(i as int));
        assert(v@.take(i + 1).last() == v@[i as int]);
        if v[i] == '.' {
            parts.push(current);
            current = String::new();
            assert(current@ =~= seq![]);
            assert(texts(parts@) =~= texts(before).push(part));
        } else {
            current.push(v[i]);
            assert(texts(before).push(part).drop_last() =~= texts(before));
            assert(texts(before).push(part).last() == part);
        }
        i += 1;
    }
    let ghost before = parts@;
    let ghost part = current@;
    parts.push(current);
    assert(texts(parts@) =~= texts(before).push(part));
    parts
}

/// Reads the three numbers of a version.
pub fn parse_version(s: &str) -> (res: Option<(u64, u64, u64)>)
    ensures
        res == version_numbers(s@),
{
    let v = chars_of(s);
    let mut end: usize = 0;
    assert(s@.skip(0) =~= s@);
    while end < v.len() && v[end] != '-' && v[end] != '+'
        invariant
            end <= v.len(),
            v@ == s@,
            core_end(s@) == end + core_end(s@.skip(end as int)),
        decreases v.len() - end,
    {
        assert(s@.skip(end as int).drop_first() =~= s@.skip(end + 1));
        assert(s@.skip(end as int)[0] == s@[end as int]);
        end += 1;
    }
    if end < v.len() {
        assert(s@.skip(end as int)[0] == s@[end as int]);
    }
    assert(core_end(s@) == end);
    let parts = split_dots(&v, end);
    let ghost all = dotted_parts(s@.take(end as int));
    assert(all.len() == parts@.len());
    if parts.len() < 3 {
        return None;
    }
    assert(all[0] == parts@[0]@ && all[1] == parts@[1]@ && all[2] == parts@[2]@);
    let major = parse_u64(trim(parts[0].as_str()).as_str());
    let minor = parse_u64(trim(parts[1].as_str()).as_str());
    let patch = parse_u64(trim(parts[2].as_str()).as_str());
    match (major, minor, patch) {
        (Some(a), Some(b), Some(c)) => Some((a, b, c)),
        _ => None,
    }
}

/// Accepts a `bd` whose version is 1.1.0 or later and whose schema is 1;
/// otherwise says what is required and what was found.
pub fn version_gate(v: &BdVersion) -> (res: Result<(), String>)
    ensures
        res is Ok <==> accepted(v.version@, v.schema_version as int),
        res matches Err(message) ==> message@ == gate_text(v.version@, v.schema_version as int),
{
    let version_ok = match parse_version(v.version.as_str()) {
        Some((major, minor, _)) => major > 1 || (major == 1 && minor >= 1),
        None => false,
    };
    if version_ok && v.schema_version == 1 {
        return Ok(());
    }
    let mut message = String::from_str(
        "fbd requires bd >= 1.1.0 with schema_version 1, but found bd ",
    );
    message.append(v.version.as_str());
    message.append(" (schema_version ");
    message.append(signed_text(v.schema_version).as_str());
    message.append("). Upgrade bd (https://github.com/gastownhall/beads).");
    Err(message)
}

// ---------------------------------------------------------------------------
// Snapshot
// ---------------------------------------------------------------------------

/// Warnings as lines for the error output.
pub open spec fn warning_lines(warnings: Seq<Seq<char>>) -> Seq<Seq<char>> {
    warnings.map_values(|w: Seq<char>| "warning: "@ + sanitized(w))
}

/// The warning about a prefix that several repositories claim.
pub open spec fn collision_text(c: CollisionModel) -> Seq<char> {
    "id prefix `"@ + sanitized(c.prefix) + "` is claimed by "@ + decimal(c.repos.len())
        + " repos; its issues show as `"@ + UNKNOWN_REPO@ + "`"@
}

/// The lines about a refresh: the failures of repositories, then the shared
/// prefixes.
pub open spec fn outcome_lines(errors: Seq<RepoErrorModel>, collisions: Seq<CollisionModel>) -> Seq<
    Seq<char>,
> {
    errors.map_values(|e: RepoErrorModel| "warning: "@ + sanitized(repo_error_text(e)))
        + collisions.map_values(|c: CollisionModel| "warning: "@ + collision_text(c))
}

fn warning_line(text: &str) -> (res: String)
    ensures
        res@ == "warning: "@ + text@,
{
    let mut out = String::from_str("warning: ");
    out.append(text);
    out
}

/// The first step of a snapshot: an unaccepted `bd` ends it before the hub is
/// touched.
pub fn snapshot_gate(version: Result<BdVersion, BdError>) -> (res: Result<(), CliError>)
    ensures
        match version {
            Ok(v) => if accepted(v.version@, v.schema_version as int) {
                res is Ok
            } else {
                res matches Err(e) && e@ == CliErrorModel::VersionGate(
                    gate_text(v.version@, v.schema_version as int),
                )
            },
            Err(e) => res matches Err(f) && f@ == CliErrorModel::Bd(e@),
        },
{
    match version {
        Ok(v) => match version_gate(&v) {
            Ok(()) => Ok(()),
            Err(message) => Err(CliError::VersionGate(message)),
        },
        Err(e) => Err(CliError::Bd(e)),
    }
}

/// After making the hub ready: the lines to print about it.
pub fn snapshot_hub(status: Result<HubStatus, HubError>) -> (res: Result<Vec<String>, CliError>)
    ensures
        match status {
            Ok(s) => res matches Ok(lines) && texts(lines@) == warning_lines(texts(s.warnings@)),
            Err(e) => res matches Err(f) && f@ == CliErrorModel::Hub(e@),
        },
{
    match status {
        Ok(s) => {
            let mut lines: Vec<String> = Vec::new();
            let mut i: usize = 0;
            while i < s.warnings.len()
                invariant
                    i <= s.warnings@.len(),
                    lines@.len() == i,
                    forall|k: int|
                        0 <= k < i ==> (#[trigger] lines@[k])@ == "warning: "@ + sanitized(
                            s.warnings@[k]@,
                        ),
                decreases s.warnings@.len() - i,
            {
                lines.push(warning_line(sanitize(s.warnings[i].as_str()).as_str()));
                i += 1;
            }
            assert(texts(lines@) =~= warning_lines(texts(s.warnings@)));
            Ok(lines)
        },
        Err(e) => Err(CliError::Hub(e)),
    }
}

/// What a snapshot reads next: the lines to print first, the map to attribute
/// by, and the time of the data.
#[derive(Debug)]
pub struct ReadyRead {
    pub lines: Vec<String>,
    pub prefix_map: PrefixMap,
    pub fetched_at: Timestamp,
}

/// After the refresh: failures of repositories and shared prefixes are printed
/// and not fatal. Where another instance is refreshing, the last synced data
/// is shown, without attribution and as of `now`.
pub fn snapshot_refreshed(
    result: Result<RefreshOutcome, RefreshError>,
    now: Timestamp,
) -> (res: Result<ReadyRead, CliError>)
    ensures
        match result {
            Ok(outcome) => res matches Ok(read) && read.prefix_map@ == outcome.prefix_map@
                && read.fetched_at@ == outcome.synced_at@ && texts(read.lines@) == outcome_lines(
                repo_errors_view(outcome.errors@),
                outcome.prefix_map@.collisions,
            ),
            Err(e) => if e@ == RefreshErrorModel::AlreadyRefreshing {
                res matches Ok(read) && read.prefix_map@ == map_of(seq![]) && read.fetched_at@
                    == now@ && texts(read.lines@) == seq![
                    "warning: another fbd is refreshing this hub; showing the last synced data"@,
                ]
            } else {
                res matches Err(f) && f@ == CliErrorModel::Refresh(e@)
            },
        },
{
    match result {
        Ok(outcome) => {
            let mut lines: Vec<String> = Vec::new();
            let ghost errors = repo_errors_view(outcome.errors@);
            let mut i: usize = 0;
            while i < outcome.errors.len()
                invariant
                    i <= outcome.errors@.len(),
                    errors == repo_errors_view(outcome.errors@),
                    lines@.len() == i,
                    forall|k: int|
                        0 <= k < i ==> (#[trigger] lines@[k])@ == "warning: "@ + sanitized(
                            repo_error_text(errors[k]),
                        ),
                decreases outcome.errors@.len() - i,
            {
                let text = outcome.errors[i].message();
                lines.push(warning_line(sanitize(text.as_str()).as_str()));
                i += 1;
            }
            let shared = outcome.prefix_map.collisions();
            let ghost collisions = collisions_view(shared@);
            let mut j: usize = 0;
            while j < shared.len()
                invariant
                    j <= shared@.len(),
                    errors.len() == outcome.errors@.len(),
                    collisions == collisions_view(shared@),
                    lines@.len() == errors.len() + j,
                    forall|k: int|
                        0 <= k < errors.len() ==> (#[trigger] lines@[k])@ == "warning: "@
                            + sanitized(repo_error_text(errors[k])),
                    forall|k: int|
                        0 <= k < j ==> (#[trigger] lines@[errors.len() + k])@ == "warning: "@
                            + collision_text(collisions[k]),
                decreases shared@.len() - j,
            {
                let mut text = String::from_str("id prefix `");
                text.append(sanitize(shared[j].prefix.as_str()).as_str());
                text.append("` is claimed by ");
                text.append(decimal_text(shared[j].repos.len() as u64).as_str());
                text.append(" repos; its issues show as `");
                text.append(UNKNOWN_REPO);
                text.append("`");
                assert(text@ == collision_text(collisions[j as int]));
                lines.push(warning_line(text.as_str()));
                j += 1;
            }
            assert(texts(lines@) =~= outcome_lines(errors, collisions)) by {
                assert forall|k: int| 0 <= k < lines@.len() implies texts(lines@)[k]
                    == outcome_lines(errors, collisions)[k] by {
                    if k >= errors.len() {
                        assert(lines@[errors.len() + (k - errors.len())] == lines@[k]);
                    }
                }
            }
            Ok(ReadyRead { lines, prefix_map: outcome.prefix_map, fetched_at: outcome.synced_at })
        },
        Err(e) => match e {
            RefreshError::AlreadyRefreshing => {
                let line = String::from_str(
                    "warning: another fbd is refreshing this hub; showing the last synced data",
                );
                let lines = vec![line];
                assert(texts(lines@) =~= seq![line@]);
                Ok(ReadyRead { lines, prefix_map: PrefixMap::default(), fetched_at: now })
            },
            other => Err(CliError::Refresh(other)),
        },
    }
}

/// After reading the ready issues: the snapshot.
pub fn snapshot_read(
    ready: Result<Vec<Issue>, BdError>,
    prefix_map: &PrefixMap,
    fetched_at: Timestamp,
) -> (res: Result<Snapshot, CliError>)
    ensures
        match ready {
            Ok(issues) => res matches Ok(snapshot) && attributed_snapshot(
                issues_view(issues@),
                prefix_map@.entries,
                None,
                fetched_at@,
                snapshot@,
            ),
            Err(e) => res matches Err(f) && f@ == CliErrorModel::Bd(e@),
        },
{
    match ready {
        Ok(issues) => Ok(attribute(issues, prefix_map, fetched_at)),
        Err(e) => Err(CliError::Bd(e)),
    }
}

/// The lines of a snapshot: one for each row, in order.
pub fn snapshot_lines(snapshot: &Snapshot) -> (res: Vec<String>)
    ensures
        texts(res@) == snapshot@.rows.map_values(|r: RowModel| row_line(r)),
{
    let mut lines: Vec<String> = Vec::new();
    let mut i: usize = 0;
    while i < snapshot.rows.len()
        invariant
            i <= snapshot.rows@.len(),
            lines@.len() == i,
            forall|k: int|
                0 <= k < i ==> (#[trigger] lines@[k])@ == row_line(snapshot.rows@[k]@),
        decreases snapshot.rows@.len() - i,
    {
        lines.push(format_row(&snapshot.rows[i]));
        i += 1;
    }
    assert(texts(lines@) =~= snapshot@.rows.map_values(|r: RowModel| row_line(r)));
    lines
}

/// How far a snapshot has come: what is to be done, or how it ended.
#[derive(Debug)]
pub enum SnapshotStep {
    /// Ask `bd` for its version.
    CheckVersion,
    /// Make the hub ready.
    EnsureHub,
    /// Refresh the hub.
    Refresh,
    /// Read the ready issues of the hub.
    ReadReady { prefix_map: PrefixMap, fetched_at: Timestamp },
    /// Print the snapshot.
    Print { snapshot: Snapshot },
    /// Nothing more: the snapshot failed.
    Failed { error: CliError },
}

/// What a [`SnapshotStep`] holds.
pub enum SnapshotStepModel {
    CheckVersion,
    EnsureHub,
    Refresh,
    ReadReady { prefix_map: PrefixMapModel, fetched_at: int },
    Print { snapshot: SnapshotModel },
    Failed { error: CliErrorModel },
}

impl View for SnapshotStep {
    type V = SnapshotStepModel;

    open spec fn view(&self) -> SnapshotStepModel {
        match self {
            SnapshotStep::CheckVersion => SnapshotStepModel::CheckVersion,
            SnapshotStep::EnsureHub => SnapshotStepModel::EnsureHub,
            SnapshotStep::Refresh => SnapshotStepModel::Refresh,
            SnapshotStep::ReadReady { prefix_map, fetched_at } => SnapshotStepModel::ReadReady {
                prefix_map: prefix_map@,
                fetched_at: fetched_at@,
            },
            SnapshotStep::Print { snapshot } => SnapshotStepModel::Print { snapshot: snapshot@ },
            SnapshotStep::Failed { error } => SnapshotStepModel::Failed { error: error@ },
        }
    }
}

/// What came of a step of a snapshot.
#[derive(Debug)]
pub enum SnapshotEvent {
    /// What `bd` said of its version.
    Version { version: Result<BdVersion, BdError> },
    /// Whether the hub is ready.
    Hub { status: Result<HubStatus, HubError> },
    /// How the refresh ended, and when that was.
    Refreshed { result: Result<RefreshOutcome, RefreshError>, now: Timestamp },
    /// The ready issues of the hub.
    Ready { ready: Result<Vec<Issue>, BdError> },
}

/// Whether `event` can come of `step`.
pub open spec fn answers(step: SnapshotStepModel, event: SnapshotEvent) -> bool {
    match step {
        SnapshotStepModel::CheckVersion => event is Version,
        SnapshotStepModel::EnsureHub => event is Hub,
        SnapshotStepModel::Refresh => event is Refreshed,
        SnapshotStepModel::ReadReady { .. } => event is Ready,
        SnapshotStepModel::Print { .. } => false,
        SnapshotStepModel::Failed { .. } => false,
    }
}

/// Whether a snapshot at `step` warns with `lines` and goes on to `next` when
/// `event` comes.
pub open spec fn snapshot_follows(
    step: SnapshotStepModel,
    event: SnapshotEvent,
    lines: Seq<Seq<char>>,
    next: SnapshotStepModel,
) -> bool {
    match event {
        SnapshotEvent::Version { version } => lines.len() == 0 && next == match version {
            Ok(v) => if accepted(v.version@, v.schema_version as int) {
                SnapshotStepModel::EnsureHub
            } else {
                SnapshotStepModel::Failed {
                    error: CliErrorModel::VersionGate(
                        gate_text(v.version@, v.schema_version as int),
                    ),
                }
            },
            Err(e) => SnapshotStepModel::Failed { error: CliErrorModel::Bd(e@) },
        },
        SnapshotEvent::Hub { status } => match status {
            Ok(s) => lines == warning_lines(texts(s.warnings@)) && next is Refresh,
            Err(e) => lines.len() == 0 && next == (SnapshotStepModel::Failed {
                error: CliErrorModel::Hub(e@),
            }),
        },
        SnapshotEvent::Refreshed { result, now } => match result {
            Ok(outcome) => lines == outcome_lines(
                repo_errors_view(outcome.errors@),
                outcome.prefix_map@.collisions,
            ) && next == (SnapshotStepModel::ReadReady {
                prefix_map: outcome.prefix_map@,
                fetched_at: outcome.synced_at@,
            }),
            Err(e) => if e@ == RefreshErrorModel::AlreadyRefreshing {
                lines == seq![
                    "warning: another fbd is refreshing this hub; showing the last synced data"@,
                ] && next == (SnapshotStepModel::ReadReady {
                    prefix_map: map_of(seq![]),
                    fetched_at: now@,
                })
            } else {
                lines.len() == 0 && next == (SnapshotStepModel::Failed {
                    error: CliErrorModel::Refresh(e@),
                })
            },
        },
        SnapshotEvent::Ready { ready } => lines.len() == 0 && match ready {
            Ok(issues) => step matches SnapshotStepModel::ReadReady { prefix_map, fetched_at }
                && next matches SnapshotStepModel::Print { snapshot } && attributed_snapshot(
                issues_view(issues@),
                prefix_map.entries,
                None,
                fetched_at,
                snapshot,
            ),
            Err(e) => next == (SnapshotStepModel::Failed { error: CliErrorModel::Bd(e@) }),
        },
    }
}

/// Takes a snapshot one step on: the lines to warn with, and what is to be
/// done next.
pub fn run_snapshot(step: SnapshotStep, event: SnapshotEvent) -> (res: (Vec<String>, SnapshotStep))
    requires
        answers(step@, event),
    ensures
        snapshot_follows(step@, event, texts(res.0@), res.1@),
{
    match event {
        SnapshotEvent::Version { version } => match snapshot_gate(version) {
            Ok(_) => (Vec::new(), SnapshotStep::EnsureHub),
            Err(error) => (Vec::new(), SnapshotStep::Failed { error }),
        },
        SnapshotEvent::Hub { status } => match snapshot_hub(status) {
            Ok(lines) => (lines, SnapshotStep::Refresh),
            Err(error) => (Vec::new(), SnapshotStep::Failed { error }),
        },
        SnapshotEvent::Refreshed { result, now } => match snapshot_refreshed(result, now) {
            Ok(read) => {
                let ReadyRead { lines, prefix_map, fetched_at } = read;
                (lines, SnapshotStep::ReadReady { prefix_map, fetched_at })
            },
            Err(error) => (Vec::new(), SnapshotStep::Failed { error }),
        },
        SnapshotEvent::Ready { ready } => match step {
            SnapshotStep::ReadReady { prefix_map, fetched_at } => {
                match snapshot_read(ready, &prefix_map, fetched_at) {
                    Ok(snapshot) => (Vec::new(), SnapshotStep::Print { snapshot }),
                    Err(error) => (Vec::new(), SnapshotStep::Failed { error }),
                }
            },
            // Only that step asks for the ready issues.
            other => (Vec::new(), other),
        },
    }
}

/// Whether `steps` are what a snapshot goes through when `events` come of
/// them, one after the other.
pub open spec fn is_snapshot_run(
    steps: Seq<SnapshotStepModel>,
    events: Seq<SnapshotEvent>,
    lines: Seq<Seq<Seq<char>>>,
) -> bool {
    &&& steps.len() == events.len() + 1
    &&& lines.len() == events.len()
    &&& steps[0] is CheckVersion
    &&& forall|i: int|
        0 <= i < events.len() ==> answers(#[trigger] steps[i], events[i]) && snapshot_follows(
            steps[i],
            events[i],
            lines[i],
            steps[i + 1],
        )
}

/// Every snapshot keeps its order. The hub is touched only after `bd` was
/// accepted, refreshed only once it is ready, and read only after a refresh
/// ended or another instance was found to be at it. What is printed was read
/// then. A snapshot that failed does nothing more.
pub proof fn law_a_snapshot_keeps_its_order(
    steps: Seq<SnapshotStepModel>,
    events: Seq<SnapshotEvent>,
    lines: Seq<Seq<Seq<char>>>,
    i: int,
)
    requires
        is_snapshot_run(steps, events, lines),
        0 <= i < steps.len(),
    ensures
        steps[i] is CheckVersion ==> i == 0,
        steps[i] is EnsureHub ==> i == 1,
        steps[i] is Refresh ==> i == 2,
        steps[i] is ReadReady ==> i == 3,
        steps[i] is Print ==> i == 4 && i == events.len(),
        steps[i] is Failed ==> i == events.len(),
        i >= 1 && !(steps[i] is Failed) ==> (events[0] matches SnapshotEvent::Version {
            version: Ok(v),
        } && accepted(v.version@, v.schema_version as int)),
        i >= 2 && !(steps[i] is Failed) ==> (events[1] matches SnapshotEvent::Hub {
            status: Ok(_),
        }),
        i >= 3 && !(steps[i] is Failed) ==> (events[2] matches SnapshotEvent::Refreshed {
            result,
            ..
        } && match result {
            Ok(_) => true,
            Err(e) => e@ == RefreshErrorModel::AlreadyRefreshing,
        }),
        i >= 4 && !(steps[i] is Failed) ==> (events[3] matches SnapshotEvent::Ready {
            ready: Ok(_),
        }),
    decreases i,
{
    if i > 0 {
        law_a_snapshot_keeps_its_order(steps, events, lines, i - 1);
        assert(answers(steps[i - 1], events[i - 1]));
    }
    if i < events.len() {
        assert(answers(steps[i], events[i]));
    }
}

// ---------------------------------------------------------------------------
// Doctor
// ---------------------------------------------------------------------------

/// What was found at an entry of the roster.
#[derive(Debug, PartialEq, Eq)]
pub struct RosterHealth {
    pub path: FsPath,
    pub exists: bool,
    pub prefix: Option<String>,
}

/// What a [`RosterHealth`] holds.
pub struct HealthModel {
    pub path: Seq<u8>,
    pub exists: bool,
    pub prefix: Option<Seq<char>>,
}

impl View for RosterHealth {
    type V = HealthModel;

    open spec fn view(&self) -> HealthModel {
        HealthModel {
            path: self.path@,
            exists: self.exists,
            prefix: opt_text(self.prefix),
        }
    }
}

/// The line about the installed `bd`.
pub open spec fn version_line(version: Result<(Seq<char>, int), BdErrorModel>) -> Seq<char> {
    match version {
        Ok((v, schema)) => {
            let head = "bd version: "@ + v + " (schema "@ + signed_decimal(schema) + ")"@;
            if accepted(v, schema) {
                head + "  gate: OK\n"@
            } else {
                head + "  gate: FAIL — "@ + gate_text(v, schema) + "\n"@
            }
        },
        Err(e) => "bd version: ERROR "@ + bd_error_text(e) + "\n"@,
    }
}

/// The lines about the places in use.
pub open spec fn places_lines(paths: PathsModel, initialized: bool) -> Seq<char> {
    "config: "@ + lossy_utf8(paths.config_file) + "\nhub: "@ + lossy_utf8(hub_path(paths)) + " ("@ + (
    if initialized {
        "initialized"@
    } else {
        "not created yet"@
    }) + ")\n"@
}

/// The line about an entry of the roster.
pub open spec fn health_line(h: HealthModel) -> Seq<char> {
    if h.exists {
        "  "@ + sanitized(lossy_utf8(h.path)) + "  OK  [prefix: "@ + sanitized(
            match h.prefix {
                Some(p) => p,
                None => "?"@,
            },
        ) + "]\n"@
    } else {
        "  "@ + sanitized(lossy_utf8(h.path)) + "  MISSING\n"@
    }
}

/// The lines about the entries of the roster.
pub open spec fn health_lines(hs: Seq<HealthModel>) -> Seq<char>
    decreases hs.len(),
{
    if hs.len() == 0 {
        seq![]
    } else {
        health_lines(hs.drop_last()) + health_line(hs.last())
    }
}

/// The lines about the roster.
pub open spec fn roster_lines(
    paths: PathsModel,
    roster: Result<Seq<HealthModel>, Seq<char>>,
) -> Seq<char> {
    match roster {
        Ok(hs) => "roster ("@ + decimal(hs.len()) + " repos):\n"@ + health_lines(hs),
        Err(e) => "roster: ERROR reading "@ + lossy_utf8(paths.config_file) + ": "@ + e + "\n"@,
    }
}

/// What the installed `bd` says of itself.
pub open spec fn version_view(v: Result<BdVersion, BdError>) -> Result<
    (Seq<char>, int),
    BdErrorModel,
> {
    match v {
        Ok(v) => Ok((v.version@, v.schema_version as int)),
        Err(e) => Err(e@),
    }
}

/// What was found of the roster.
pub open spec fn roster_view(r: Result<Vec<RosterHealth>, CliError>) -> Result<
    Seq<HealthModel>,
    Seq<char>,
> {
    match r {
        Ok(hs) => Ok(hs@.map_values(|h: RosterHealth| h@)),
        Err(e) => Err(cli_error_text(e@)),
    }
}

/// The directory whose presence shows to [`run_doctor`] that the hub exists.
pub fn doctor_hub_probe(hub: &FsPath) -> (res: FsPath)
    ensures
        res@ == joined(hub_beads_path(hub@), encode_utf8("embeddeddolt"@)),
{
    hub_beads_dir(hub).join_text("embeddeddolt")
}

/// The report on the health of the installation.
pub open spec fn doctor_report(
    version: Result<(Seq<char>, int), BdErrorModel>,
    paths: PathsModel,
    initialized: bool,
    roster: Result<Seq<HealthModel>, Seq<char>>,
) -> Seq<char> {
    version_line(version) + places_lines(paths, initialized) + roster_lines(paths, roster)
}

/// The report tells of everything whatever it finds: `bd` first, then the places
/// in use, then the roster. None of the three changes what is said of the others.
pub proof fn law_the_report_tells_of_everything(
    version: Result<(Seq<char>, int), BdErrorModel>,
    paths: PathsModel,
    initialized: bool,
    roster: Result<Seq<HealthModel>, Seq<char>>,
)
    ensures
        ({
            let report = doctor_report(version, paths, initialized, roster);
            let a = version_line(version).len() as int;
            let b = places_lines(paths, initialized).len() as int;
            &&& report.take(a) == version_line(version)
            &&& report.subrange(a, a + b) == places_lines(paths, initialized)
            &&& report.skip(a + b) == roster_lines(paths, roster)
        }),
{
    let report = doctor_report(version, paths, initialized, roster);
    let a = version_line(version).len() as int;
    let b = places_lines(paths, initialized).len() as int;
    assert(report.take(a) =~= version_line(version));
    assert(report.subrange(a, a + b) =~= places_lines(paths, initialized));
    assert(report.skip(a + b) =~= roster_lines(paths, roster));
}

/// Reports the health of the installation. Nothing it finds makes it fail: an
/// unaccepted or missing `bd` and a broken roster are lines of the report.
/// `initialized` tells whether the hub exists.
pub fn run_doctor(
    version: &Result<BdVersion, BdError>,
    paths: &Paths,
    initialized: bool,
    roster: &Result<Vec<RosterHealth>, CliError>,
) -> (res: String)
    ensures
        res@ == version_line(version_view(*version)) + places_lines(paths@, initialized)
            + roster_lines(paths@, roster_view(*roster)),
        res@ == doctor_report(version_view(*version), paths@, initialized, roster_view(*roster)),
{
    let mut out = String::new();
    match version {
        Ok(v) => {
            out = String::from_str("bd version: ");
            out.append(v.version.as_str());
            out.append(" (schema ");
            out.append(signed_text(v.schema_version).as_str());
            out.append(")");
            match version_gate(v) {
                Ok(()) => out.append("  gate: OK\n"),
                Err(message) => {
                    out.append("  gate: FAIL — ");
                    out.append(message.as_str());
                    out.append("\n");
                },
            }
        },
        Err(e) => {
            out = String::from_str("bd version: ERROR ");
            out.append(e.message().as_str());
            out.append("\n");
        },
    }
    let ghost first = out@;
    assert(first == version_line(version_view(*version)));
    let mut places = String::from_str("config: ");
    places.append(paths.config_file().display().as_str());
    places.append("\nhub: ");
    places.append(hub_dir(paths).display().as_str());
    places.append(" (");
    if initialized {
        places.append("initialized");
    } else {
        places.append("not created yet");
    }
    places.append(")\n");
    assert(places@ == places_lines(paths@, initialized));
    out.append(places.as_str());
    let rest = roster_text(paths, roster);
    out.append(rest.as_str());
    out
}

fn roster_text(paths: &Paths, roster: &Result<Vec<RosterHealth>, CliError>) -> (res: String)
    ensures
        res@ == roster_lines(paths@, roster_view(*roster)),
{
    match roster {
        Ok(hs) => {
            let ghost all = hs@.map_values(|h: RosterHealth| h@);
            let mut out = String::from_str("roster (");
            out.append(decimal_text(hs.len() as u64).as_str());
            out.append(" repos):\n");
            let ghost head = out@;
            let mut lines = String::new();
            let mut i: usize = 0;
            assert(lines@ =~= health_lines(all.take(0)));
            while i < hs.len()
                invariant
                    i <= hs@.len(),
                    all == hs@.map_values(|h: RosterHealth| h@),
                    lines@ == health_lines(all.take(i as int)),
                decreases hs@.len() - i,
            {
                assert(all.take(i + 1).drop_last() =~= all.take(i as int));
                assert(all.take(i + 1).last() == hs@[i as int]@);
                let line = health_text(&hs[i]);
                lines.append(line.as_str());
                i += 1;
            }
            assert(all.take(all.len() as int) =~= all);
            out.append(lines.as_str());
            out
        },
        Err(e) => {
            let mut out = String::from_str("roster: ERROR reading ");
            out.append(paths.config_file().display().as_str());
            out.append(": ");
            out.append(e.message().as_str());
            out.append("\n");
            out
        },
    }
}

fn health_text(h: &RosterHealth) -> (res: String)
    ensures
        res@ == health_line(h@),
        ends_in(res@, "  MISSING\n"@) <==> !h.exists,
        ("  "@ + sanitized(lossy_utf8(h.path@))).is_prefix_of(res@),
{
    proof {
        law_only_a_missing_repository_is_called_missing(h@);
        let path = "  "@ + sanitized(lossy_utf8(h.path@));
        let line = health_line(h@);
        assert(path =~= line.take(path.len() as int));
    }
    let shown = sanitize(h.path.display().as_str());
    let mut out = String::from_str("  ");
    out.append(shown.as_str());
    if h.exists {
        out.append("  OK  [prefix: ");
        let prefix = match &h.prefix {
            Some(p) => sanitize(p.as_str()),
            None => sanitize("?"),
        };
        out.append(prefix.as_str());
        out.append("]\n");
    } else {
        out.append("  MISSING\n");
    }
    out
}

// ---------------------------------------------------------------------------
// Roster and reset
// ---------------------------------------------------------------------------

/// What the roster is, given what is at the roster file's place and what loading
/// it gives.
pub open spec fn roster_found(probe: ProbeModel, loaded: Result<Seq<Seq<u8>>, Seq<char>>) -> Result<
    Seq<Seq<u8>>,
    CliErrorModel,
> {
    match probe {
        ProbeModel::Missing => Ok(seq![]),
        _ => match loaded {
            Ok(roster) => Ok(roster),
            Err(detail) => Err(CliErrorModel::Io(detail)),
        },
    }
}

/// Only a roster file that is truly missing means an empty roster: one that
/// cannot be inspected or loaded is a failure and never an empty roster.
pub proof fn law_a_broken_roster_is_no_first_run(
    probe: ProbeModel,
    loaded: Result<Seq<Seq<u8>>, Seq<char>>,
)
    ensures
        probe is Missing ==> (roster_found(probe, loaded) matches Ok(roster) && roster.len() == 0),
        !(probe is Missing) && loaded is Err ==> roster_found(probe, loaded) == Err::<
            Seq<Seq<u8>>,
            CliErrorModel,
        >(CliErrorModel::Io(loaded->Err_0)),
        !(probe is Missing) && loaded is Ok ==> roster_found(probe, loaded) == Ok::<
            Seq<Seq<u8>>,
            CliErrorModel,
        >(loaded->Ok_0),
{
}

/// What loading a roster gives.
pub open spec fn loaded_roster(r: Result<Config, String>) -> Result<Seq<Seq<u8>>, Seq<char>> {
    match r {
        Ok(roster) => Ok(roster@),
        Err(detail) => Err(detail@),
    }
}

/// The roster of a first run where there is no roster file, and otherwise what
/// loading it gives: only a file that is truly missing counts as a first run.
pub fn load_roster(probe: &Probe, loaded: Result<Config, String>) -> (res: Result<Config, CliError>)
    ensures
        probe@ is Missing ==> (res matches Ok(roster) && roster@ == Seq::<Seq<u8>>::empty()),
        !(probe@ is Missing) ==> match loaded {
            Ok(roster) => res == Ok::<Config, CliError>(roster),
            Err(detail) => res matches Err(e) && e@ == CliErrorModel::Io(detail@),
        },
        match res {
            Ok(roster) => roster_found(probe@, loaded_roster(loaded)) == Ok::<
                Seq<Seq<u8>>,
                CliErrorModel,
            >(roster@),
            Err(e) => roster_found(probe@, loaded_roster(loaded)) == Err::<
                Seq<Seq<u8>>,
                CliErrorModel,
            >(e@),
        },
{
    match probe {
        Probe::Missing => Ok(Config::default()),
        _ => match loaded {
            Ok(roster) => Ok(roster),
            Err(detail) => Err(CliError::Io(detail)),
        },
    }
}

/// What a reset reports, given whether there was anything at the hub's place.
pub open spec fn reset_text(p: PathsModel, existed: bool) -> Seq<char> {
    if existed {
        "hub reset: removed "@ + lossy_utf8(hub_path(p))
    } else {
        "hub reset: nothing to remove ("@ + lossy_utf8(hub_path(p)) + ")"@
    }
}

fn reset_report(paths: &Paths, existed: bool) -> (res: String)
    ensures
        res@ == reset_text(paths@, existed),
{
    let hub = hub_dir(paths).display();
    if existed {
        let mut out = String::from_str("hub reset: removed ");
        out.append(hub.as_str());
        out
    } else {
        let mut out = String::from_str("hub reset: nothing to remove (");
        out.append(hub.as_str());
        out.append(")");
        out
    }
}

/// What to do next in a reset, or how it ended.
#[derive(Debug, PartialEq, Eq)]
pub enum ResetStep {
    /// Find out whether there is anything at the hub's place; a link counts,
    /// wherever it leads.
    InspectHub { hub: FsPath },
    /// Remove the hub and all that is in it; of a link, the link.
    RemoveHub { hub: FsPath },
    /// Remove the cached snapshot.
    RemoveCache { file: FsPath, existed: bool },
    /// Print the report.
    Done { report: String },
    /// Nothing more: the reset failed.
    Failed { error: CliError },
}

/// What a [`ResetStep`] holds.
pub enum ResetStepModel {
    InspectHub { hub: Seq<u8> },
    RemoveHub { hub: Seq<u8> },
    RemoveCache { file: Seq<u8>, existed: bool },
    Done { report: Seq<char> },
    Failed { error: CliErrorModel },
}

impl View for ResetStep {
    type V = ResetStepModel;

    open spec fn view(&self) -> ResetStepModel {
        match self {
            ResetStep::InspectHub { hub } => ResetStepModel::InspectHub { hub: hub@ },
            ResetStep::RemoveHub { hub } => ResetStepModel::RemoveHub { hub: hub@ },
            ResetStep::RemoveCache { file, existed } => ResetStepModel::RemoveCache {
                file: file@,
                existed: *existed,
            },
            ResetStep::Done { report } => ResetStepModel::Done { report: report@ },
            ResetStep::Failed { error } => ResetStepModel::Failed { error: error@ },
        }
    }
}

/// What came of a step of a reset.
pub enum ResetEvent {
    HubInspected { present: bool },
    HubRemoved(Result<(), IoFailureModel>),
    CacheRemoved(Result<(), IoFailureModel>),
}

/// The step after an outcome. An outcome of something else than what was
/// asked for changes nothing.
pub open spec fn reset_next(p: PathsModel, step: ResetStepModel, event: ResetEvent)
    -> ResetStepModel {
    match (step, event) {
        (ResetStepModel::InspectHub { hub }, ResetEvent::HubInspected { present }) => if present {
            ResetStepModel::RemoveHub { hub }
        } else {
            ResetStepModel::RemoveCache { file: p.cache_file, existed: false }
        },
        (ResetStepModel::RemoveHub { hub }, ResetEvent::HubRemoved(result)) => match result {
            Ok(_) => ResetStepModel::RemoveCache { file: p.cache_file, existed: true },
            Err(e) => ResetStepModel::Failed {
                error: CliErrorModel::Hub(HubErrorModel::Io { path: hub, detail: e.message }),
            },
        },
        (ResetStepModel::RemoveCache { existed, .. }, ResetEvent::CacheRemoved(result)) => {
            match result {
                Err(e) if e.kind != IoKind::NotFound => ResetStepModel::Failed {
                    error: CliErrorModel::Io(e.message),
                },
                _ => ResetStepModel::Done { report: reset_text(p, existed) },
            }
        },
        _ => step,
    }
}

/// Starts a reset.
pub fn run_reset(paths: &Paths) -> (res: ResetStep)
    ensures
        res@ == (ResetStepModel::InspectHub { hub: hub_path(paths@) }),
{
    match reset(paths) {
        Ok(hub) => ResetStep::InspectHub { hub },
        Err(error) => ResetStep::Failed { error: CliError::Hub(error) },
    }
}

/// After finding out whether there is anything at the hub's place.
pub fn reset_inspected(paths: &Paths, hub: FsPath, present: bool) -> (res: ResetStep)
    ensures
        res@ == reset_next(
            paths@,
            ResetStepModel::InspectHub { hub: hub@ },
            ResetEvent::HubInspected { present },
        ),
{
    if present {
        ResetStep::RemoveHub { hub }
    } else {
        ResetStep::RemoveCache { file: reset_targets(paths).1, existed: false }
    }
}

/// After removing the hub.
pub fn reset_hub_removed(paths: &Paths, hub: FsPath, result: Result<(), IoFailure>) -> (res:
    ResetStep)
    ensures
        res@ == reset_next(
            paths@,
            ResetStepModel::RemoveHub { hub: hub@ },
            ResetEvent::HubRemoved(io_result(result)),
        ),
{
    match result {
        Ok(()) => ResetStep::RemoveCache { file: reset_targets(paths).1, existed: true },
        Err(e) => ResetStep::Failed {
            error: CliError::Hub(HubError::Io { path: hub, detail: e.message }),
        },
    }
}

/// After removing the cached snapshot: one that is not there is no failure.
pub fn reset_cache_removed(paths: &Paths, existed: bool, result: Result<(), IoFailure>) -> (res:
    ResetStep)
    ensures
        forall|file: Seq<u8>|
            res@ == #[trigger] reset_next(
                paths@,
                ResetStepModel::RemoveCache { file, existed },
                ResetEvent::CacheRemoved(io_result(result)),
            ),
{
    match clear(result) {
        Ok(()) => ResetStep::Done { report: reset_report(paths, existed) },
        Err(e) => ResetStep::Failed { error: CliError::Io(e.message) },
    }
}

/// Whether `event` is what comes of a step of a reset on `disk`, and `after` is
/// the disk then. A removal that failed may have removed a part.
pub open spec fn reset_does(disk: Disk, step: ResetStepModel, event: ResetEvent, after: Disk)
    -> bool {
    match (step, event) {
        (ResetStepModel::InspectHub { hub }, ResetEvent::HubInspected { present }) => {
            &&& after == disk
            &&& present == (at(disk, hub) is Some)
        },
        (ResetStepModel::RemoveHub { hub }, ResetEvent::HubRemoved(result)) => {
            &&& forall|place: Seq<Seq<u8>>|
                !at_or_below(hub, place) ==> #[trigger] after.get(place) == disk.get(place)
            &&& keeps(after, disk)
            &&& result is Ok ==> forall|place: Seq<Seq<u8>>| #[trigger]
                at_or_below(hub, place) ==> after.get(place) is None
        },
        (ResetStepModel::RemoveCache { file, .. }, ResetEvent::CacheRemoved(result)) => {
            match result {
                Ok(_) => after == disk.remove(components(file)),
                Err(e) => after == disk && (e.kind == IoKind::NotFound ==> at(disk, file) is None),
            }
        },
        _ => false,
    }
}

/// A reset: its steps, what came of each, and the disk before each.
pub struct ResetRun {
    pub steps: Seq<ResetStepModel>,
    pub events: Seq<ResetEvent>,
    pub disks: Seq<Disk>,
}

/// Whether a reset went like this.
pub open spec fn is_reset(p: PathsModel, run: ResetRun) -> bool {
    &&& run.steps.len() == run.events.len() + 1
    &&& run.disks.len() == run.steps.len()
    &&& run.steps[0] == (ResetStepModel::InspectHub { hub: hub_path(p) })
    &&& forall|i: int|
        0 <= i < run.events.len() ==> {
            &&& reset_does(#[trigger] run.disks[i], run.steps[i], run.events[i], run.disks[i + 1])
            &&& run.steps[i + 1] == reset_next(p, run.steps[i], run.events[i])
        }
}

/// Whether nothing lies at a path or below it.
pub open spec fn is_gone(disk: Disk, path: Seq<u8>) -> bool {
    forall|place: Seq<Seq<u8>>| #[trigger] at_or_below(path, place) ==> disk.get(place) is None
}

proof fn lemma_reset(p: PathsModel, run: ResetRun, i: int)
    requires
        is_reset(p, run),
        is_tree(run.disks[0]),
        components(hub_path(p)).len() > 0,
        0 <= i < run.steps.len(),
    ensures
        forall|place: Seq<Seq<u8>>|
            !at_or_below(hub_path(p), place) && place != components(p.cache_file)
                ==> #[trigger] run.disks[i].get(place) == run.disks[0].get(place),
        match run.steps[i] {
            ResetStepModel::InspectHub { hub } => i == 0 && hub == hub_path(p),
            ResetStepModel::RemoveHub { hub } => hub == hub_path(p) && at(
                run.disks[0],
                hub,
            ) is Some && run.disks[i] == run.disks[0],
            ResetStepModel::RemoveCache { file, existed } => {
                &&& file == p.cache_file
                &&& existed == (at(run.disks[0], hub_path(p)) is Some)
                &&& is_gone(run.disks[i], hub_path(p))
            },
            ResetStepModel::Done { report } => {
                &&& is_gone(run.disks[i], hub_path(p))
                &&& at(run.disks[i], p.cache_file) is None
                &&& report == reset_text(p, at(run.disks[0], hub_path(p)) is Some)
            },
            ResetStepModel::Failed { .. } => true,
        },
        i > 0 && run.steps[i] is Failed ==> (match run.events[i - 1] {
            ResetEvent::HubInspected { .. } => false,
            ResetEvent::HubRemoved(result) => result is Err,
            ResetEvent::CacheRemoved(result) => result is Err,
        }),
    decreases i,
{
    if i > 0 {
        lemma_reset(p, run, i - 1);
        assert(reset_does(run.disks[i - 1], run.steps[i - 1], run.events[i - 1], run.disks[i]));
        let hub = hub_path(p);
        if run.steps[i - 1] is InspectHub && at(run.disks[0], hub) is None {
            assert forall|place: Seq<Seq<u8>>| #[trigger]
                at_or_below(hub, place) implies run.disks[i].get(place) is None by {
                assert(components(hub).is_prefix_of(place));
                assert(!run.disks[0].contains_key(components(hub)));
            }
        }
    }
}

/// A reset that succeeds leaves nothing of the hub and no cached snapshot, and
/// says whether there was a hub; a link counts as one, and goes itself. However
/// a reset ends, all else stays as it is, the user's files among it; and it
/// fails only where a removal did.
pub proof fn law_a_reset_removes_the_hub_and_the_cache(
    config_root: Seq<u8>,
    data_root: Seq<u8>,
    run: ResetRun,
)
    requires
        is_reset(paths_below(config_root, data_root), run),
        is_tree(run.disks[0]),
    ensures
        ({
            let p = paths_below(config_root, data_root);
            let (start, end) = (run.disks[0], run.disks.last());
            &&& run.steps.last() matches ResetStepModel::Done { report } ==> {
                &&& is_gone(end, hub_path(p))
                &&& at(end, p.cache_file) is None
                &&& report == reset_text(p, at(start, hub_path(p)) is Some)
            }
            &&& run.steps.last() is Failed ==> (match run.events.last() {
                ResetEvent::HubInspected { .. } => false,
                ResetEvent::HubRemoved(result) => result is Err,
                ResetEvent::CacheRemoved(result) => result is Err,
            })
            &&& forall|place: Seq<Seq<u8>>|
                !at_or_below(hub_path(p), place) && place != components(p.cache_file)
                    ==> #[trigger] end.get(place) == start.get(place)
            &&& at(end, p.ui_state_file) == at(start, p.ui_state_file)
            &&& at(end, p.legacy_ui_state_file) == at(start, p.legacy_ui_state_file)
            &&& spared(p, config_root) ==> at(end, p.config_file) == at(start, p.config_file)
            &&& spared(p, config_root) ==> at(end, p.legacy_config_file) == at(
                start,
                p.legacy_config_file,
            )
        }),
{
    let p = paths_below(config_root, data_root);
    lemma_own_names();
    law_join_adds_a_component(p.data_dir, encode_utf8("hub"@));
    lemma_reset(p, run, run.steps.len() - 1);
    law_a_reset_spares_the_users_files(config_root, data_root);
}

/// Whether a text holds no control character.
pub open spec fn inert(s: Seq<char>) -> bool {
    forall|i: int| 0 <= i < s.len() ==> !control(#[trigger] s[i])
}

/// A row is one line: no row can start another line or drive the terminal.
pub proof fn law_a_row_is_one_line(row: RowModel)
    ensures
        inert(row_line(row)),
{
    reveal_strlit("[");
    reveal_strlit("] ");
    reveal_strlit("P");
    reveal_strlit(" ");
    let n = if row.issue.priority < 0 {
        -row.issue.priority
    } else {
        row.issue.priority
    };
    law_decimal_reads_back(n as nat);
    let digits = signed_decimal(row.issue.priority);
    assert forall|i: int| 0 <= i < digits.len() implies !control(
        #[trigger] digits[i],
    ) by {
        let d = decimal(n as nat);
        if row.issue.priority < 0 {
            if i > 0 {
                assert(digits[i] == d[i - 1]);
                assert(is_digit(d[i - 1]));
            }
        } else {
            assert(is_digit(d[i]));
        }
    }
    lemma_inert_add("["@, sanitized(row.repo_name));
    lemma_inert_add("["@ + sanitized(row.repo_name), "] "@);
    lemma_inert_add("P"@, digits);
    lemma_inert_add("P"@ + digits, " "@);
    lemma_inert_add("P"@ + digits + " "@, sanitized(row.issue.id));
    lemma_inert_add("P"@ + digits + " "@ + sanitized(row.issue.id), " "@);
    lemma_inert_add(
        "P"@ + digits + " "@ + sanitized(row.issue.id) + " "@,
        sanitized(row.issue.title),
    );
    lemma_inert_add("["@ + sanitized(row.repo_name) + "] "@, row_body(row));
}

proof fn lemma_inert_add(a: Seq<char>, b: Seq<char>)
    requires
        inert(a),
        inert(b),
    ensures
        inert(a + b),
{
    assert forall|i: int| 0 <= i < (a + b).len() implies !control(
        #[trigger] (a + b)[i],
    ) by {
        if i < a.len() {
            assert((a + b)[i] == a[i]);
        } else {
            assert((a + b)[i] == b[i - a.len()]);
        }
    }
}

proof fn lemma_collision_text_is_inert(c: CollisionModel)
    ensures
        inert(collision_text(c)),
{
    reveal_strlit("id prefix `");
    reveal_strlit("` is claimed by ");
    reveal_strlit(" repos; its issues show as `");
    reveal_strlit("unknown");
    reveal_strlit("`");
    let digits = decimal(c.repos.len());
    law_decimal_reads_back(c.repos.len());
    assert forall|i: int| 0 <= i < digits.len() implies !control(#[trigger] digits[i]) by {
        assert(is_digit(digits[i]));
    }
    let a = "id prefix `"@ + sanitized(c.prefix);
    let b = a + "` is claimed by "@;
    let d = b + digits;
    let e = d + " repos; its issues show as `"@;
    lemma_inert_add("id prefix `"@, sanitized(c.prefix));
    lemma_inert_add(a, "` is claimed by "@);
    lemma_inert_add(b, digits);
    lemma_inert_add(d, " repos; its issues show as `"@);
    lemma_inert_add(e, UNKNOWN_REPO@);
    lemma_inert_add(e + UNKNOWN_REPO@, "`"@);
}

/// No warning of a snapshot can start another line or drive the terminal.
pub proof fn law_a_snapshot_warns_in_single_lines(
    step: SnapshotStepModel,
    event: SnapshotEvent,
    lines: Seq<Seq<char>>,
    next: SnapshotStepModel,
)
    requires
        snapshot_follows(step, event, lines, next),
    ensures
        forall|i: int| 0 <= i < lines.len() ==> inert(#[trigger] lines[i]),
{
    reveal_strlit("warning: ");
    reveal_strlit("warning: another fbd is refreshing this hub; showing the last synced data");
    assert forall|i: int| 0 <= i < lines.len() implies inert(#[trigger] lines[i]) by {
        match event {
            SnapshotEvent::Hub { status: Ok(s) } => {
                lemma_inert_add("warning: "@, sanitized(texts(s.warnings@)[i]));
            },
            SnapshotEvent::Refreshed { result: Ok(outcome), .. } => {
                let errors = repo_errors_view(outcome.errors@);
                let collisions = outcome.prefix_map@.collisions;
                if i < errors.len() {
                    lemma_inert_add("warning: "@, sanitized(repo_error_text(errors[i])));
                } else {
                    let c = collisions[i - errors.len()];
                    assert(lines[i] == "warning: "@ + collision_text(c));
                    lemma_collision_text_is_inert(c);
                    lemma_inert_add("warning: "@, collision_text(c));
                }
            },
            _ => {},
        }
    }
}

/// Whether a text ends in another.
pub open spec fn ends_in(s: Seq<char>, end: Seq<char>) -> bool {
    end.is_suffix_of(s)
}

/// The line about an entry of the roster starts with its path. It ends in
/// `MISSING` exactly where nothing is at that path, and shows `OK` with the
/// repository's prefix, or a question mark where that is not known, exactly
/// where something is.
pub proof fn law_only_a_missing_repository_is_called_missing(h: HealthModel)
    ensures
        ({
            let shown = sanitized(
                match h.prefix {
                    Some(p) => p,
                    None => seq!['?'],
                },
            );
            let line = health_line(h);
            &&& ("  "@ + sanitized(lossy_utf8(h.path)) + "  "@).is_prefix_of(line)
            &&& ends_in(line, "  MISSING\n"@) <==> !h.exists
            &&& ends_in(line, "  OK  [prefix: "@ + shown + "]\n"@) <==> h.exists
            &&& line.len() == sanitized(lossy_utf8(h.path)).len() + 2 + if h.exists {
                "  OK  [prefix: ]\n"@.len() + shown.len()
            } else {
                "  MISSING\n"@.len()
            }
        }),
{
    reveal_strlit("  ");
    reveal_strlit("  MISSING\n");
    reveal_strlit("  OK  [prefix: ");
    reveal_strlit("  OK  [prefix: ]\n");
    reveal_strlit("]\n");
    reveal_strlit("?");
    let prefix = match h.prefix {
        Some(p) => p,
        None => "?"@,
    };
    assert("?"@ =~= seq!['?']);
    let shown = sanitized(prefix);
    let path = sanitized(lossy_utf8(h.path));
    let line = health_line(h);
    let start = "  "@ + path + "  "@;
    assert(start =~= line.take(start.len() as int));
    let n = line.len() as int;
    assert(line[n - 1] == '\n');
    if h.exists {
        let end = "  OK  [prefix: "@ + shown + "]\n"@;
        assert(line.skip(n - end.len()) =~= end);
        assert(line[n - 2] == ']');
        if ends_in(line, "  MISSING\n"@) {
            assert(line.skip(n - 10)[8] == 'G');
        }
    } else {
        assert(line.skip(n - 10) =~= "  MISSING\n"@);
        assert(line[n - 2] == 'G');
        let end = "  OK  [prefix: "@ + shown + "]\n"@;
        if ends_in(line, end) {
            let k = end.len() as int;
            assert(line.skip(n - k)[k - 2] == end[k - 2]);
            assert(end[k - 2] == ']');
        }
    }
}

/// The report has one line for each entry of the roster, in its order, after a
/// line that gives their number.
pub proof fn law_every_entry_has_its_line(paths: PathsModel, hs: Seq<HealthModel>)
    ensures
        ({
            let lines = lines_of(roster_lines(paths, Ok(hs)));
            &&& lines.len() == hs.len() + 2
            &&& lines[0] == "roster ("@ + decimal(hs.len()) + " repos):"@
            &&& forall|k: int|
                0 <= k < hs.len() ==> (#[trigger] lines[k + 1]).push('\n') == health_line(hs[k])
            &&& lines.last().len() == 0
        }),
{
    reveal_strlit("roster (");
    reveal_strlit(" repos):\n");
    reveal_strlit(" repos):");
    let digits = decimal(hs.len());
    let head = "roster ("@ + digits + " repos):"@;
    law_decimal_reads_back(hs.len());
    assert forall|i: int| 0 <= i < head.len() implies head[i] != '\n' by {
        if 8 <= i < 8 + digits.len() {
            assert(is_digit(digits[i - 8]));
        }
    }
    lemma_one_line(head);
    lemma_health_lines(hs);
    lemma_lines_parted(head, health_lines(hs));
    assert("roster ("@ + digits + " repos):\n"@ + health_lines(hs) =~= head.push('\n')
        + health_lines(hs));
    let lines = lines_of(roster_lines(paths, Ok(hs)));
    let rest = lines_of(health_lines(hs));
    assert(lines =~= seq![head] + rest);
    assert forall|k: int| 0 <= k < hs.len() implies (#[trigger] lines[k + 1]).push('\n')
        == health_line(hs[k]) by {
        assert(lines[k + 1] == rest[k]);
    }
}

proof fn lemma_health_lines(hs: Seq<HealthModel>)
    ensures
        ({
            let lines = lines_of(health_lines(hs));
            &&& lines.len() == hs.len() + 1
            &&& forall|k: int|
                0 <= k < hs.len() ==> (#[trigger] lines[k]).push('\n') == health_line(hs[k])
            &&& lines.last().len() == 0
        }),
    decreases hs.len(),
{
    let lines = lines_of(health_lines(hs));
    if hs.len() > 0 {
        let rest = hs.drop_last();
        lemma_health_lines(rest);
        let line = health_line(hs.last());
        let body = line.drop_last();
        lemma_health_line_is_one_line(hs.last());
        let before = health_lines(rest);
        let earlier = lines_of(before);
        lemma_line_continues(before, body);
        lemma_one_line(body);
        lemma_lines_parted(before + body, seq![]);
        assert((before + body).push('\n') + Seq::<char>::empty() =~= health_lines(hs));
        assert(lines =~= earlier.drop_last().push(body).push(seq![]));
        assert(body.push('\n') =~= line);
        assert forall|k: int| 0 <= k < hs.len() implies (#[trigger] lines[k]).push('\n')
            == health_line(hs[k]) by {
            if k < rest.len() {
                assert(lines[k] == earlier[k]);
            }
        }
    }
}

proof fn lemma_line_continues(s: Seq<char>, tail: Seq<char>)
    requires
        lines_of(s).last().len() == 0,
        lines_of(s).len() > 0,
        !tail.contains('\n'),
    ensures
        lines_of(s + tail) == lines_of(s).drop_last().push(tail),
    decreases tail.len(),
{
    if tail.len() == 0 {
        assert(s + tail =~= s);
        assert(lines_of(s).last() =~= tail);
        assert(lines_of(s) =~= lines_of(s).drop_last().push(tail));
    } else {
        let rest = tail.drop_last();
        assert(tail.contains(tail[tail.len() - 1]));
        assert forall|i: int| 0 <= i < rest.len() implies rest[i] != '\n' by {
            assert(tail.contains(tail[i]));
        }
        lemma_line_continues(s, rest);
        assert((s + tail).drop_last() =~= s + rest);
        assert(rest.push(tail.last()) =~= tail);
        assert(lines_of(s + tail) =~= lines_of(s).drop_last().push(tail));
    }
}

proof fn lemma_health_line_is_one_line(h: HealthModel)
    ensures
        health_line(h).len() > 0,
        health_line(h).last() == '\n',
        !health_line(h).drop_last().contains('\n'),
{
    reveal_strlit("  ");
    reveal_strlit("  MISSING\n");
    reveal_strlit("  OK  [prefix: ");
    reveal_strlit("]\n");
    let path = sanitized(lossy_utf8(h.path));
    law_sanitized_is_inert(lossy_utf8(h.path));
    let prefix = match h.prefix {
        Some(p) => p,
        None => "?"@,
    };
    law_sanitized_is_inert(prefix);
    let line = health_line(h);
    let body = line.drop_last();
    assert forall|i: int| 0 <= i < body.len() implies body[i] != '\n' by {
        let a = 2 + path.len();
        assert(body[i] == line[i]);
        if 2 <= i < a {
            assert(line[i] == path[i - 2]);
        } else if h.exists && a + 15 <= i < a + 15 + prefix.len() {
            assert(line[i] == sanitized(prefix)[i - a - 15]);
        }
    }
}

/// The report says `OK` of the installed `bd` exactly where it is accepted, and
/// `FAIL` with the reason otherwise; it shows the version and schema found.
pub proof fn law_the_report_tells_whether_bd_is_accepted(version: Seq<char>, schema: int)
    ensures
        ({
            let line = version_line(Ok((version, schema)));
            &&& ("bd version: "@ + version + " (schema "@ + signed_decimal(schema) + ")"@).is_prefix_of(
                line,
            )
            &&& ends_in(line, "  gate: OK\n"@) <==> accepted(version, schema)
            &&& ends_in(line, "  gate: FAIL — "@ + gate_text(version, schema) + "\n"@)
                <==> !accepted(version, schema)
        }),
{
    reveal_strlit("  gate: OK\n");
    reveal_strlit("  gate: FAIL — ");
    reveal_strlit("\n");
    reveal_strlit("). Upgrade bd (https://github.com/gastownhall/beads).");
    let head = "bd version: "@ + version + " (schema "@ + signed_decimal(schema) + ")"@;
    let line = version_line(Ok((version, schema)));
    let n = line.len() as int;
    assert(head =~= line.take(head.len() as int));
    let bad = "  gate: FAIL — "@ + gate_text(version, schema) + "\n"@;
    let k = bad.len() as int;
    assert(bad[k - 2] == '.');
    if accepted(version, schema) {
        assert(line.skip(n - 11) =~= "  gate: OK\n"@);
        assert(line[n - 2] == 'K');
        if ends_in(line, bad) {
            assert(line.skip(n - k)[k - 2] == bad[k - 2]);
        }
    } else {
        assert(line =~= head + bad);
        assert(line.skip(n - k) =~= bad);
        assert(line[n - 2] == bad[k - 2]);
        if ends_in(line, "  gate: OK\n"@) {
            assert(line.skip(n - 11)[9] == 'K');
        }
    }
}

/// The report calls the hub initialized exactly where it exists.
pub proof fn law_the_report_tells_whether_the_hub_exists(paths: PathsModel, initialized: bool)
    ensures
        ({
            let lines = places_lines(paths, initialized);
            &&& ("config: "@ + lossy_utf8(paths.config_file) + "\nhub: "@ + lossy_utf8(
                hub_path(paths),
            )).is_prefix_of(lines)
            &&& ends_in(lines, " (initialized)\n"@) <==> initialized
            &&& ends_in(lines, " (not created yet)\n"@) <==> !initialized
        }),
{
    reveal_strlit(" (");
    reveal_strlit("initialized");
    reveal_strlit("not created yet");
    reveal_strlit(")\n");
    reveal_strlit(" (initialized)\n");
    reveal_strlit(" (not created yet)\n");
    let head = "config: "@ + lossy_utf8(paths.config_file) + "\nhub: "@ + lossy_utf8(
        hub_path(paths),
    );
    let lines = places_lines(paths, initialized);
    let n = lines.len() as int;
    assert(head =~= lines.take(head.len() as int));
    if initialized {
        assert(lines =~= head + " (initialized)\n"@);
        assert(lines.skip(n - 15) =~= " (initialized)\n"@);
        assert(lines[n - 3] == 'd');
        if ends_in(lines, " (not created yet)\n"@) {
            assert(lines.skip(n - 19)[16] == 't');
        }
    } else {
        assert(lines =~= head + " (not created yet)\n"@);
        assert(lines.skip(n - 19) =~= " (not created yet)\n"@);
        assert(lines[n - 3] == 't');
        if ends_in(lines, " (initialized)\n"@) {
            assert(lines.skip(n - 15)[12] == 'd');
        }
    }
}

/// A row shows its repository in brackets, its priority after a `P`, its id and
/// its title, in this order and each exactly once.
pub proof fn law_a_row_shows_its_parts_in_order(row: RowModel)
    ensures
        ({
            let line = row_line(row);
            let a = 1 + row.repo_name.len() as int;
            let b = a + 3 + signed_decimal(row.issue.priority).len();
            let c = b + 1 + row.issue.id.len();
            &&& line.len() == c + 1 + row.issue.title.len()
            &&& line[0] == '[' && line[a] == ']' && line[a + 1] == ' ' && line[a + 2] == 'P'
            &&& line[b] == ' ' && line[c] == ' '
            &&& line.subrange(1, a) == sanitized(row.repo_name)
            &&& line.subrange(a + 3, b) == signed_decimal(row.issue.priority)
            &&& line.subrange(b + 1, c) == sanitized(row.issue.id)
            &&& line.skip(c + 1) == sanitized(row.issue.title)
            &&& line.skip(a + 2) == row_body(row)
        }),
{
    reveal_strlit("[");
    reveal_strlit("] ");
    reveal_strlit("P");
    reveal_strlit(" ");
    let line = row_line(row);
    let a = 1 + row.repo_name.len() as int;
    let b = a + 3 + signed_decimal(row.issue.priority).len();
    let c = b + 1 + row.issue.id.len();
    assert(line.subrange(1, a) =~= sanitized(row.repo_name));
    assert(line.subrange(a + 3, b) =~= signed_decimal(row.issue.priority));
    assert(line.subrange(b + 1, c) =~= sanitized(row.issue.id));
    assert(line.skip(c + 1) =~= sanitized(row.issue.title));
    assert(line.skip(a + 2) =~= row_body(row));
}

/// What a reset reports names the hub's place, and speaks of a removal exactly
/// where there was something to remove.
pub proof fn law_a_reset_reports_what_was_there(p: PathsModel, existed: bool)
    ensures
        ({
            let text = reset_text(p, existed);
            let place = lossy_utf8(hub_path(p));
            &&& "hub reset: removed "@.is_prefix_of(text) <==> existed
            &&& "hub reset: nothing to remove ("@.is_prefix_of(text) <==> !existed
            &&& existed ==> text.skip("hub reset: removed "@.len() as int) == place
            &&& !existed ==> text.subrange(
                "hub reset: nothing to remove ("@.len() as int,
                text.len() - 1,
            ) == place
        }),
{
    reveal_strlit("hub reset: removed ");
    reveal_strlit("hub reset: nothing to remove (");
    reveal_strlit(")");
    let text = reset_text(p, existed);
    let place = lossy_utf8(hub_path(p));
    if existed {
        assert(text.take(19) =~= "hub reset: removed "@);
        assert(text.skip(19) =~= place);
        assert(text[11] == 'r');
        if "hub reset: nothing to remove ("@.is_prefix_of(text) {
            assert(text.take(30)[11] == 'n');
        }
    } else {
        assert(text.take(30) =~= "hub reset: nothing to remove ("@);
        assert(text.subrange(30, text.len() - 1) =~= place);
        assert(text[11] == 'n');
        if "hub reset: removed "@.is_prefix_of(text) {
            assert(text.take(19)[11] == 'r');
        }
    }
}

proof fn lemma_core_end_before(head: Seq<char>, suffix: Seq<char>)
    requires
        !head.contains('-'),
        !head.contains('+'),
        suffix.len() == 0 || suffix[0] == '-' || suffix[0] == '+',
    ensures
        core_end(head + suffix) == head.len(),
    decreases head.len(),
{
    let s = head + suffix;
    if head.len() == 0 {
        assert(s =~= suffix);
    } else {
        assert(head.contains(head[0]));
        let rest = head.drop_first();
        assert forall|i: int| 0 <= i < rest.len() implies rest[i] != '-' && rest[i] != '+' by {
            assert(rest[i] == head[i + 1]);
            assert(head.contains(head[i + 1]));
        }
        lemma_core_end_before(rest, suffix);
        assert(s.drop_first() =~= rest + suffix);
    }
}

proof fn lemma_parts_at_a_dot(a: Seq<char>, b: Seq<char>)
    ensures
        dotted_parts(a.push('.') + b) == dotted_parts(a) + dotted_parts(b),
    decreases b.len(),
{
    let s = a.push('.') + b;
    lemma_dotted_parts(b);
    if b.len() == 0 {
        assert(s =~= a.push('.'));
        assert(s.drop_last() =~= a);
        assert(dotted_parts(s) =~= dotted_parts(a) + dotted_parts(b));
    } else {
        let c = b.drop_last();
        lemma_parts_at_a_dot(a, c);
        lemma_dotted_parts(c);
        assert(s.drop_last() =~= a.push('.') + c);
        assert(s.last() == b.last());
        let whole = dotted_parts(a) + dotted_parts(c);
        assert(whole.last() == dotted_parts(c).last());
        assert(dotted_parts(s) =~= dotted_parts(a) + dotted_parts(b));
    }
}

proof fn lemma_digits_are_one_part(s: Seq<char>)
    requires
        all_digits(s),
    ensures
        dotted_parts(s) == seq![s],
    decreases s.len(),
{
    if s.len() == 0 {
        assert(s =~= seq![]);
        assert(dotted_parts(s) =~= seq![s]);
    } else {
        let rest = s.drop_last();
        assert forall|i: int| 0 <= i < rest.len() implies is_digit(#[trigger] rest[i]) by {
            assert(rest[i] == s[i]);
        }
        assert(is_digit(s[s.len() - 1]));
        lemma_digits_are_one_part(rest);
        assert(rest.push(s.last()) =~= s);
        assert(dotted_parts(s) =~= seq![s]);
    }
}

proof fn lemma_number_read(n: nat)
    requires
        n <= u64::MAX,
    ensures
        parsed_u64(trimmed(decimal(n))) == Some(n as u64),
{
    law_a_written_number_is_read_back(n, seq![]);
    law_decimal_reads_back(n);
    let s = decimal(n);
    assert(is_digit(s[0]));
    assert(is_digit(s[s.len() - 1]));
    assert(trimmed(s) == s);
}

/// The version as it is usually written: three numbers with dots between them,
/// and perhaps a suffix after a dash or a plus sign.
pub open spec fn written_version(major: nat, minor: nat, patch: nat, suffix: Seq<char>) -> Seq<char> {
    decimal(major).push('.') + decimal(minor).push('.') + decimal(patch) + suffix
}

/// A `bd` is accepted exactly where its schema is 1 and its version, compared
/// number by number, is 1.1.0 or later. A suffix makes no difference.
pub proof fn law_versions_are_compared_by_number(
    major: nat,
    minor: nat,
    patch: nat,
    suffix: Seq<char>,
    schema: int,
)
    requires
        major <= u64::MAX,
        minor <= u64::MAX,
        patch <= u64::MAX,
        suffix.len() == 0 || suffix[0] == '-' || suffix[0] == '+',
    ensures
        version_numbers(written_version(major, minor, patch, suffix)) == Some(
            (major as u64, minor as u64, patch as u64),
        ),
        accepted(written_version(major, minor, patch, suffix), schema) <==> schema == 1 && (major
            >= 2 || major == 1 && minor >= 1),
{
    let (a, b, c) = (decimal(major), decimal(minor), decimal(patch));
    lemma_no_sign_in_decimal(major);
    lemma_no_sign_in_decimal(minor);
    lemma_no_sign_in_decimal(patch);
    let rest = b.push('.') + c;
    let head = a.push('.') + rest;
    lemma_absent(b, c, '-');
    lemma_absent(b, c, '+');
    lemma_absent(a, rest, '-');
    lemma_absent(a, rest, '+');
    lemma_core_end_before(head, suffix);
    let whole = written_version(major, minor, patch, suffix);
    assert(whole =~= head + suffix);
    assert(whole.take(head.len() as int) =~= head);
    lemma_parts_at_a_dot(a, rest);
    lemma_parts_at_a_dot(b, c);
    let parts = dotted_parts(head);
    assert(parts == seq![a] + (seq![b] + seq![c]));
    assert(parts[0] == a && parts[1] == b && parts[2] == c);
    lemma_number_read(major);
    lemma_number_read(minor);
    lemma_number_read(patch);
}

/// Anything that does not give three numbers is refused, whatever the schema,
/// and a refusal tells the version and the schema that were found.
pub proof fn law_an_unreadable_version_is_refused(version: Seq<char>, schema: int)
    ensures
        version_numbers(version) is None ==> !accepted(version, schema),
        schema != 1 ==> !accepted(version, schema),
        dotted_parts(version.take(core_end(version))).len() < 3 ==> !accepted(version, schema),
        ("fbd requires bd >= 1.1.0 with schema_version 1, but found bd "@ + version
            + " (schema_version "@ + signed_decimal(schema)).is_prefix_of(
            gate_text(version, schema),
        ),
{
    let head = "fbd requires bd >= 1.1.0 with schema_version 1, but found bd "@ + version
        + " (schema_version "@ + signed_decimal(schema);
    let text = gate_text(version, schema);
    assert(text.take(head.len() as int) =~= head);
}

/// What a snapshot warns of: each warning about the hub, each failed repository
/// and each shared prefix has one line, in this order and unchanged but for
/// control characters. A failure is no warning.
pub proof fn law_each_trouble_of_a_snapshot_has_one_line(
    step: SnapshotStepModel,
    event: SnapshotEvent,
    lines: Seq<Seq<char>>,
    next: SnapshotStepModel,
)
    requires
        snapshot_follows(step, event, lines, next),
    ensures
        next is Failed || next is Print || next is EnsureHub ==> lines.len() == 0,
        event matches SnapshotEvent::Hub { status: Ok(s) } ==> {
            &&& lines.len() == s.warnings@.len()
            &&& forall|i: int|
                0 <= i < lines.len() ==> #[trigger] lines[i] == "warning: "@ + sanitized(
                    s.warnings@[i]@,
                )
        },
        event matches SnapshotEvent::Refreshed { result: Ok(outcome), .. } ==> {
            let errors = repo_errors_view(outcome.errors@);
            let shared = outcome.prefix_map@.collisions;
            &&& lines.len() == errors.len() + shared.len()
            &&& forall|i: int|
                0 <= i < errors.len() ==> #[trigger] lines[i] == "warning: "@ + sanitized(
                    repo_error_text(errors[i]),
                )
            &&& forall|i: int|
                0 <= i < shared.len() ==> ("warning: id prefix `"@ + sanitized(shared[i].prefix)
                    + "` is claimed by "@ + decimal(shared[i].repos.len())
                    + " repos"@).is_prefix_of(#[trigger] lines[errors.len() + i])
        },
{
    match event {
        SnapshotEvent::Refreshed { result: Ok(outcome), .. } => {
            let errors = repo_errors_view(outcome.errors@);
            let shared = outcome.prefix_map@.collisions;
            assert forall|i: int| 0 <= i < shared.len() implies ("warning: id prefix `"@
                + sanitized(shared[i].prefix) + "` is claimed by "@ + decimal(shared[i].repos.len())
                + " repos"@).is_prefix_of(#[trigger] lines[errors.len() + i]) by {
                reveal_strlit("warning: ");
                reveal_strlit("id prefix `");
                reveal_strlit("warning: id prefix `");
                reveal_strlit(" repos");
                reveal_strlit(" repos; its issues show as `");
                let c = shared[i];
                let head = "warning: id prefix `"@ + sanitized(c.prefix) + "` is claimed by "@
                    + decimal(c.repos.len()) + " repos"@;
                let line = "warning: "@ + collision_text(c);
                assert(lines[errors.len() + i] == line);
                assert("warning: id prefix `"@ =~= "warning: "@ + "id prefix `"@);
                assert(line.take(head.len() as int) =~= head);
            }
        },
        SnapshotEvent::Hub { status: Ok(s) } => {
            assert forall|i: int| 0 <= i < lines.len() implies #[trigger] lines[i] == "warning: "@
                + sanitized(s.warnings@[i]@) by {
                assert(texts(s.warnings@)[i] == s.warnings@[i]@);
            }
        },
        _ => {},
    }
}

/// A snapshot goes on as long as everything succeeds. It fails with the error of
/// the step that failed and with no other; only that another instance is
/// refreshing is no failure, and then nothing is attributed.
pub proof fn law_a_snapshot_fails_only_with_its_steps(
    step: SnapshotStepModel,
    event: SnapshotEvent,
    lines: Seq<Seq<char>>,
    next: SnapshotStepModel,
)
    requires
        answers(step, event),
        snapshot_follows(step, event, lines, next),
    ensures
        match event {
            SnapshotEvent::Version { version } => match version {
                Ok(v) => if accepted(v.version@, v.schema_version as int) {
                    next is EnsureHub
                } else {
                    next matches SnapshotStepModel::Failed { error } && error is VersionGate
                },
                Err(e) => next == (SnapshotStepModel::Failed { error: CliErrorModel::Bd(e@) }),
            },
            SnapshotEvent::Hub { status } => match status {
                Ok(_) => next is Refresh,
                Err(e) => next == (SnapshotStepModel::Failed { error: CliErrorModel::Hub(e@) }),
            },
            SnapshotEvent::Refreshed { result, now } => match result {
                Ok(outcome) => next matches SnapshotStepModel::ReadReady { prefix_map, fetched_at }
                    && prefix_map == outcome.prefix_map@ && fetched_at == outcome.synced_at@,
                Err(e) => if e is AlreadyRefreshing {
                    next matches SnapshotStepModel::ReadReady { prefix_map, fetched_at }
                        && prefix_map.entries.len() == 0 && fetched_at == now@ && lines.len() == 1
                } else {
                    next == (SnapshotStepModel::Failed { error: CliErrorModel::Refresh(e@) })
                },
            },
            SnapshotEvent::Ready { ready } => match ready {
                Ok(_) => next is Print,
                Err(e) => next == (SnapshotStepModel::Failed { error: CliErrorModel::Bd(e@) }),
            },
        },
{
}

/// A reset looks first and removes the hub only where something is there. It
/// then removes the cached snapshot, and that there is none is no failure; any
/// other removal that fails ends it.
pub proof fn law_a_reset_fails_only_where_a_removal_did(
    p: PathsModel,
    hub: Seq<u8>,
    file: Seq<u8>,
    existed: bool,
    e: IoFailureModel,
)
    ensures
        reset_next(p, ResetStepModel::InspectHub { hub }, ResetEvent::HubInspected { present: true })
            == (ResetStepModel::RemoveHub { hub }),
        reset_next(
            p,
            ResetStepModel::InspectHub { hub },
            ResetEvent::HubInspected { present: false },
        ) == (ResetStepModel::RemoveCache { file: p.cache_file, existed: false }),
        reset_next(p, ResetStepModel::RemoveHub { hub }, ResetEvent::HubRemoved(Ok(()))) == (
        ResetStepModel::RemoveCache { file: p.cache_file, existed: true }),
        reset_next(p, ResetStepModel::RemoveHub { hub }, ResetEvent::HubRemoved(Err(e))) == (
        ResetStepModel::Failed {
            error: CliErrorModel::Hub(HubErrorModel::Io { path: hub, detail: e.message }),
        }),
        reset_next(
            p,
            ResetStepModel::RemoveCache { file, existed },
            ResetEvent::CacheRemoved(Ok(())),
        ) is Done,
        ({
            let end = reset_next(
                p,
                ResetStepModel::RemoveCache { file, existed },
                ResetEvent::CacheRemoved(Err(e)),
            );
            &&& e.kind == IoKind::NotFound <==> end is Done
            &&& e.kind != IoKind::NotFound ==> end == (ResetStepModel::Failed {
                error: CliErrorModel::Io(e.message),
            })
        }),
{
}

/// The report tells why `bd` could not be asked, and why the roster could not be
/// read, in place of what it would say otherwise.
pub proof fn law_the_report_tells_what_failed(
    failure: BdErrorModel,
    paths: PathsModel,
    reason: Seq<char>,
)
    ensures
        "bd version: ERROR "@.is_prefix_of(version_line(Err(failure))),
        ends_in(version_line(Err(failure)).drop_last(), bd_error_text(failure)),
        ("roster: ERROR reading "@ + lossy_utf8(paths.config_file)).is_prefix_of(
            roster_lines(paths, Err(reason)),
        ),
        ends_in(roster_lines(paths, Err(reason)).drop_last(), reason),
{
    reveal_strlit("\n");
    let a = version_line(Err(failure));
    let head = "bd version: ERROR "@;
    let tail = bd_error_text(failure);
    assert(a.take(head.len() as int) =~= head);
    let cut = a.drop_last();
    assert(cut.skip(cut.len() - tail.len()) =~= tail);
    let b = roster_lines(paths, Err(reason));
    let start = "roster: ERROR reading "@ + lossy_utf8(paths.config_file);
    assert(b.take(start.len() as int) =~= start);
    let short = b.drop_last();
    assert(short.skip(short.len() - reason.len()) =~= reason);
}

/// A fatal failure is told in the words of what failed.
pub proof fn law_a_fatal_failure_is_told_in_its_own_words(e: CliErrorModel)
    ensures
        match e {
            CliErrorModel::VersionGate(message) => cli_error_text(e) == message,
            CliErrorModel::Hub(source) => cli_error_text(e) == hub_error_text(source),
            CliErrorModel::Refresh(source) => cli_error_text(e) == refresh_error_text(source),
            CliErrorModel::Bd(source) => cli_error_text(e) == bd_error_text(source),
            CliErrorModel::Io(detail) => ends_in(cli_error_text(e), detail)
                && "writing output: "@.is_prefix_of(cli_error_text(e)),
        },
{
    match e {
        CliErrorModel::Io(detail) => {
            let text = cli_error_text(e);
            assert(text.skip(text.len() - detail.len()) =~= detail);
            assert(text.take("writing output: "@.len() as int) =~= "writing output: "@);
        },
        _ => {},
    }
}

proof fn lemma_absent(a: Seq<char>, b: Seq<char>, c: char)
    requires
        !a.contains(c),
        !b.contains(c),
        c != '.',
    ensures
        !(a.push('.') + b).contains(c),
{
    let s = a.push('.') + b;
    if s.contains(c) {
        let i = choose|i: int| 0 <= i < s.len() && s[i] == c;
        if i < a.len() {
            assert(a[i] == c);
        } else if i > a.len() {
            assert(b[i - a.len() - 1] == c);
        }
    }
}

proof fn lemma_no_sign_in_decimal(n: nat)
    ensures
        !decimal(n).contains('-'),
        !decimal(n).contains('+'),
        dotted_parts(decimal(n)) == seq![decimal(n)],
{
    law_decimal_reads_back(n);
    lemma_digits_are_one_part(decimal(n));
    assert forall|i: int| 0 <= i < decimal(n).len() implies decimal(n)[i] != '-' && decimal(n)[i]
        != '+' by {
        assert(is_digit(decimal(n)[i]));
    }
}

/// What follows the third number of a version makes no difference.
pub proof fn law_further_parts_are_ignored(major: nat, minor: nat, patch: nat, more: Seq<char>)
    requires
        major <= u64::MAX,
        minor <= u64::MAX,
        patch <= u64::MAX,
        !more.contains('-'),
        !more.contains('+'),
    ensures
        version_numbers(written_version(major, minor, patch, seq!['.'] + more)) == Some(
            (major as u64, minor as u64, patch as u64),
        ),
{
    let (a, b, c) = (decimal(major), decimal(minor), decimal(patch));
    lemma_no_sign_in_decimal(major);
    lemma_no_sign_in_decimal(minor);
    lemma_no_sign_in_decimal(patch);
    let last = c.push('.') + more;
    let rest = b.push('.') + last;
    let head = a.push('.') + rest;
    lemma_absent(c, more, '-');
    lemma_absent(c, more, '+');
    lemma_absent(b, last, '-');
    lemma_absent(b, last, '+');
    lemma_absent(a, rest, '-');
    lemma_absent(a, rest, '+');
    let none = Seq::<char>::empty();
    lemma_core_end_before(head, none);
    let whole = written_version(major, minor, patch, seq!['.'] + more);
    assert(whole =~= head);
    assert(head + none =~= head);
    assert(head.take(head.len() as int) =~= head);
    lemma_parts_at_a_dot(a, rest);
    lemma_parts_at_a_dot(b, last);
    lemma_parts_at_a_dot(c, more);
    let parts = dotted_parts(head);
    assert(parts == seq![a] + (seq![b] + (seq![c] + dotted_parts(more))));
    assert(parts[0] == a && parts[1] == b && parts[2] == c);
    lemma_number_read(major);
    lemma_number_read(minor);
    lemma_number_read(patch);
}

proof fn lemma_dotless_is_one_part(s: Seq<char>)
    requires
        !s.contains('.'),
    ensures
        dotted_parts(s) == seq![s],
    decreases s.len(),
{
    if s.len() == 0 {
        assert(s =~= seq![]);
        assert(dotted_parts(s) =~= seq![s]);
    } else {
        let rest = s.drop_last();
        assert(s.contains(s[s.len() - 1]));
        assert forall|i: int| 0 <= i < rest.len() implies rest[i] != '.' by {
            assert(s.contains(s[i]));
        }
        lemma_dotless_is_one_part(rest);
        assert(rest.push(s.last()) =~= s);
        assert(dotted_parts(s) =~= seq![s]);
    }
}

/// Whether a text could be one part of a version.
pub open spec fn is_part(s: Seq<char>) -> bool {
    !s.contains('.') && !s.contains('-') && !s.contains('+')
}

proof fn lemma_whole_core(s: Seq<char>)
    ensures
        !s.contains('-') && !s.contains('+') ==> s.take(core_end(s)) == s,
{
    if !s.contains('-') && !s.contains('+') {
        let none = Seq::<char>::empty();
        lemma_core_end_before(s, none);
        assert(s + none =~= s);
        assert(s.take(s.len() as int) =~= s);
    }
}

proof fn lemma_three_parts(a: Seq<char>, b: Seq<char>, c: Seq<char>)
    requires
        is_part(a),
        is_part(b),
        is_part(c),
    ensures
        ({
            let whole = a.push('.') + b.push('.') + c;
            &&& whole.take(core_end(whole)) == whole
            &&& dotted_parts(whole) == seq![a, b, c]
        }),
{
    let rest = b.push('.') + c;
    let whole = a.push('.') + rest;
    assert(a.push('.') + b.push('.') + c =~= whole);
    lemma_absent(b, c, '-');
    lemma_absent(b, c, '+');
    lemma_absent(a, rest, '-');
    lemma_absent(a, rest, '+');
    lemma_whole_core(whole);
    lemma_dotless_is_one_part(a);
    lemma_dotless_is_one_part(b);
    lemma_dotless_is_one_part(c);
    lemma_parts_at_a_dot(a, rest);
    lemma_parts_at_a_dot(b, c);
    assert(seq![a] + (seq![b] + seq![c]) =~= seq![a, b, c]);
}

/// Each of the three parts of a version has to be a number, and each counts for
/// itself; blanks around it do not matter.
pub proof fn law_each_part_has_to_be_a_number(a: Seq<char>, b: Seq<char>, c: Seq<char>)
    requires
        is_part(a),
        is_part(b),
        is_part(c),
    ensures
        version_numbers(a.push('.') + b.push('.') + c) == match (
            parsed_u64(trimmed(a)),
            parsed_u64(trimmed(b)),
            parsed_u64(trimmed(c)),
        ) {
            (Some(x), Some(y), Some(z)) => Some((x, y, z)),
            _ => None,
        },
        version_numbers(a.push('.') + b) is None,
        version_numbers(a) is None,
{
    lemma_three_parts(a, b, c);
    lemma_whole_core(a.push('.') + b);
    lemma_whole_core(a);
    lemma_absent(a, b, '-');
    lemma_absent(a, b, '+');
    lemma_dotless_is_one_part(a);
    lemma_dotless_is_one_part(b);
    lemma_parts_at_a_dot(a, b);
    assert(dotted_parts(a.push('.') + b).len() == 2);
    assert(dotted_parts(a).len() == 1);
    let parts = seq![a, b, c];
    assert(parts[0] == a && parts[1] == b && parts[2] == c);
}

proof fn lemma_row_parts(row: RowModel)
    ensures
        ("["@ + sanitized(row.repo_name) + "] P"@ + signed_decimal(row.issue.priority) + " "@
            + sanitized(row.issue.id)).is_prefix_of(row_line(row)),
        ends_in(row_line(row), " "@ + sanitized(row.issue.title)),
{
    reveal_strlit("] ");
    reveal_strlit("P");
    reveal_strlit("] P");
    let line = row_line(row);
    let head = "["@ + sanitized(row.repo_name) + "] P"@ + signed_decimal(row.issue.priority) + " "@
        + sanitized(row.issue.id);
    let tail = " "@ + sanitized(row.issue.title);
    assert("] P"@ =~= "] "@ + "P"@);
    assert(line =~= head + tail);
    assert(line.take(head.len() as int) =~= head);
    assert(line.skip(line.len() - tail.len()) =~= tail);
}

/// What `bd`, the roster and the roster file came to is told as it was.
pub proof fn law_findings_are_told_as_they_were(
    version: Result<BdVersion, BdError>,
    roster: Result<Vec<RosterHealth>, CliError>,
    loaded: Result<Config, String>,
)
    ensures
        version matches Ok(v) ==> version_view(version) == Ok::<(Seq<char>, int), BdErrorModel>(
            (v.version@, v.schema_version as int),
        ),
        version matches Err(e) ==> version_view(version) == Err::<(Seq<char>, int), BdErrorModel>(e@),
        roster matches Ok(hs) ==> {
            &&& roster_view(roster) is Ok
            &&& (roster_view(roster)->Ok_0).len() == hs@.len()
            &&& forall|i: int|
                0 <= i < hs@.len() ==> {
                    let h = #[trigger] (roster_view(roster)->Ok_0)[i];
                    h.exists == hs@[i].exists && h.path == hs@[i].path@ && h.prefix == opt_text(
                        hs@[i].prefix,
                    )
                }
        },
        roster matches Err(e) ==> roster_view(roster) == Err::<Seq<HealthModel>, Seq<char>>(
            cli_error_text(e@),
        ),
        loaded matches Ok(c) ==> loaded_roster(loaded) == Ok::<Seq<Seq<u8>>, Seq<char>>(c@),
        loaded matches Err(m) ==> loaded_roster(loaded) == Err::<Seq<Seq<u8>>, Seq<char>>(m@),
{
}

} // verus!
