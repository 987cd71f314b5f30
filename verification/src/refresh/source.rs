//! The work on one repository of the roster: after its export, find out and
//! verify the prefix of its issue ids.
use vstd::prelude::*;
use vstd::string::*;
use crate::bd::error::{bd_error_text, BdError, BdErrorModel};
use crate::config::{resolved_roster_path, Config, Paths, PathsModel, RepoEntry};
use crate::io::{IoFailure, IoFailureModel};
use crate::path::{components, contains_path, holds_path, paths_view, rooted, FsPath};
use crate::refresh::error::{repo_errors_view, ExportOperation, RepoError, RepoErrorModel};
use crate::refresh::evidence::ExportPrefixEvidence;
use crate::refresh::export::{canonical_export, file_error, file_failure, issues_file};
use crate::text::opt_text;

verus! {

/// A prefix that a freshly exported, non-empty file proved.
#[derive(Debug, PartialEq, Eq)]
pub struct VerifiedRepoPrefix {
    pub normalized_path: FsPath,
    pub prefix: String,
}

/// What a [`VerifiedRepoPrefix`] holds.
pub struct VerifiedModel {
    pub path: Seq<u8>,
    pub prefix: Seq<char>,
}

impl View for VerifiedRepoPrefix {
    type V = VerifiedModel;

    open spec fn view(&self) -> VerifiedModel {
        VerifiedModel { path: self.normalized_path@, prefix: self.prefix@ }
    }
}

impl Clone for VerifiedRepoPrefix {
    fn clone(&self) -> (res: VerifiedRepoPrefix)
        ensures
            res@ == self@,
    {
        VerifiedRepoPrefix {
            normalized_path: self.normalized_path.clone(),
            prefix: self.prefix.clone(),
        }
    }
}

/// What a list of verified prefixes holds.
pub open spec fn verified_view(v: Seq<VerifiedRepoPrefix>) -> Seq<VerifiedModel> {
    v.map_values(|r: VerifiedRepoPrefix| r@)
}

/// A copy of some verified prefixes.
pub fn copy_verified(v: &Vec<VerifiedRepoPrefix>) -> (res: Vec<VerifiedRepoPrefix>)
    ensures
        verified_view(res@) == verified_view(v@),
{
    let mut out: Vec<VerifiedRepoPrefix> = Vec::new();
    let mut i: usize = 0;
    while i < v.len()
        invariant
            i <= v@.len(),
            out@.len() == i,
            forall|k: int| 0 <= k < i ==> #[trigger] out@[k]@ == v@[k]@,
        decreases v@.len() - i,
    {
        out.push(v[i].clone());
        i += 1;
    }
    assert(verified_view(out@) =~= verified_view(v@));
    out
}

/// A repository of the roster that is to be worked on.
#[derive(Debug, PartialEq, Eq)]
pub struct SourceJob {
    pub roster_index: usize,
    pub entry: RepoEntry,
}

/// What a [`SourceJob`] holds.
pub struct SourceJobModel {
    pub roster_index: nat,
    pub path: Seq<u8>,
}

impl View for SourceJob {
    type V = SourceJobModel;

    open spec fn view(&self) -> SourceJobModel {
        SourceJobModel { roster_index: self.roster_index as nat, path: self.entry@ }
    }
}

impl Clone for SourceJob {
    fn clone(&self) -> (res: SourceJob)
        ensures
            res@ == self@,
    {
        SourceJob { roster_index: self.roster_index, entry: self.entry.clone() }
    }
}

// ---------------------------------------------------------------------------
// The jobs of a roster
// ---------------------------------------------------------------------------

/// The roster's entries as absolute paths.
pub open spec fn resolved_roster_view(paths: PathsModel, roster: Seq<Seq<u8>>) -> Seq<Seq<u8>> {
    roster.map_values(|p: Seq<u8>| resolved_roster_path(paths, p))
}

/// Resolves every entry of the roster.
pub fn resolved_roster(roster: &Config, paths: &Paths) -> (res: Vec<FsPath>)
    ensures
        paths_view(res@) == resolved_roster_view(paths@, roster@),
{
    let mut out: Vec<FsPath> = Vec::new();
    let mut i: usize = 0;
    while i < roster.repos.len()
        invariant
            i <= roster.repos@.len(),
            out@.len() == i,
            forall|k: int|
                0 <= k < i ==> #[trigger] out@[k]@ == resolved_roster_path(
                    paths@,
                    roster.repos@[k]@,
                ),
        decreases roster.repos@.len() - i,
    {
        out.push(paths.resolve_roster_path(&roster.repos[i].path));
        i += 1;
    }
    assert(paths_view(out@) =~= resolved_roster_view(paths@, roster@));
    out
}

/// Whether an entry names a repository that no earlier entry names.
pub open spec fn first_occurrence(normalized: Seq<Seq<u8>>, i: int) -> bool {
    !holds_path(normalized.take(i), normalized[i])
}

/// The jobs of a roster: each repository once, at its first entry. `resolved`
/// are the entries' paths, and `normalized` what the file system calls them.
pub open spec fn jobs_of(resolved: Seq<Seq<u8>>, normalized: Seq<Seq<u8>>) -> Seq<SourceJobModel>
    decreases normalized.len(),
{
    if normalized.len() == 0 {
        seq![]
    } else {
        let n = normalized.len() - 1;
        let before = jobs_of(resolved, normalized.drop_last());
        if first_occurrence(normalized, n) {
            before.push(SourceJobModel { roster_index: n as nat, path: resolved[n] })
        } else {
            before
        }
    }
}

/// What a list of jobs holds.
pub open spec fn jobs_view(v: Seq<SourceJob>) -> Seq<SourceJobModel> {
    v.map_values(|j: SourceJob| j@)
}

/// The jobs of a roster and the normalized path of each.
pub fn normalized_jobs(resolved: &Vec<FsPath>, normalized: &Vec<FsPath>) -> (res: (
    Vec<SourceJob>,
    Vec<FsPath>,
))
    requires
        resolved@.len() == normalized@.len(),
    ensures
        jobs_view(res.0@) == jobs_of(paths_view(resolved@), paths_view(normalized@)),
        res.1@.len() == res.0@.len(),
        forall|k: int|
            0 <= k < res.0@.len() ==> (#[trigger] res.0@[k]).roster_index < normalized@.len()
                && res.1@[k]@ == normalized@[res.0@[k].roster_index as int]@,
{
    let ghost names = paths_view(normalized@);
    let ghost places = paths_view(resolved@);
    let mut jobs: Vec<SourceJob> = Vec::new();
    let mut kept: Vec<FsPath> = Vec::new();
    let mut seen: Vec<FsPath> = Vec::new();
    let mut i: usize = 0;
    assert(names.take(0) =~= Seq::<Seq<u8>>::empty());
    assert(jobs_view(jobs@) =~= jobs_of(places, names.take(0)));
    assert(paths_view(seen@) =~= names.take(0));
    while i < normalized.len()
        invariant
            i <= normalized@.len(),
            resolved@.len() == normalized@.len(),
            names == paths_view(normalized@),
            places == paths_view(resolved@),
            paths_view(seen@) == names.take(i as int),
            jobs_view(jobs@) == jobs_of(places, names.take(i as int)),
            kept@.len() == jobs@.len(),
            forall|k: int|
                0 <= k < jobs@.len() ==> (#[trigger] jobs@[k]).roster_index < normalized@.len()
                    && kept@[k]@ == normalized@[jobs@[k].roster_index as int]@,
        decreases normalized@.len() - i,
    {
        let ghost before = jobs@;
        let ghost seen_before = seen@;
        let known = contains_path(&seen, &normalized[i]);
        proof {
            assert(names.take(i + 1).drop_last() =~= names.take(i as int));
            assert(names.take(i + 1)[i as int] == normalized@[i as int]@);
            assert(names.take(i + 1).take(i as int) =~= names.take(i as int));
        }
        if !known {
            jobs.push(
                SourceJob {
                    roster_index: i,
                    entry: RepoEntry { path: resolved[i].clone() },
                },
            );
            kept.push(normalized[i].clone());
            assert(jobs_view(jobs@) =~= jobs_view(before).push(
                SourceJobModel { roster_index: i as nat, path: places[i as int] },
            ));
        }
        seen.push(normalized[i].clone());
        assert(paths_view(seen@) =~= paths_view(seen_before).push(names[i as int]));
        assert(names.take(i + 1) =~= names.take(i as int).push(names[i as int]));
        i += 1;
    }
    assert(names.take(names.len() as int) =~= names);
    (jobs, kept)
}

/// Whether a job works on the repository of an entry.
pub open spec fn covered(jobs: Seq<SourceJobModel>, normalized: Seq<Seq<u8>>, i: int) -> bool {
    exists|k: int|
        0 <= k < jobs.len() && same_repo(
            normalized,
            (#[trigger] jobs[k]).roster_index as int,
            i,
        )
}

/// Whether two entries name the same repository.
pub open spec fn same_repo(normalized: Seq<Seq<u8>>, i: int, j: int) -> bool {
    components(normalized[i]) == components(normalized[j])
}

/// Whether jobs stand in the order of the roster and no two of them work on
/// the same repository.
pub open spec fn jobs_distinct(jobs: Seq<SourceJobModel>, normalized: Seq<Seq<u8>>) -> bool {
    forall|a: int, b: int|
        #![trigger jobs[a], jobs[b]]
        0 <= a < b < jobs.len() ==> jobs[a].roster_index < jobs[b].roster_index && !same_repo(
            normalized,
            jobs[a].roster_index as int,
            jobs[b].roster_index as int,
        )
}

/// Whether every job works on the path of its entry.
pub open spec fn jobs_in_place(jobs: Seq<SourceJobModel>, resolved: Seq<Seq<u8>>, n: int) -> bool {
    forall|k: int|
        0 <= k < jobs.len() ==> (#[trigger] jobs[k]).roster_index < n && jobs[k].path
            == resolved[jobs[k].roster_index as int]
}

proof fn lemma_jobs_of(resolved: Seq<Seq<u8>>, normalized: Seq<Seq<u8>>, n: int)
    requires
        0 <= n <= normalized.len(),
    ensures
        ({
            let jobs = jobs_of(resolved, normalized.take(n));
            &&& jobs_in_place(jobs, resolved, n)
            &&& jobs_distinct(jobs, normalized)
            &&& forall|i: int| 0 <= i < n ==> #[trigger] covered(jobs, normalized, i)
        }),
    decreases n,
{
    if n > 0 {
        let m = n - 1;
        lemma_jobs_of(resolved, normalized, m);
        let names = normalized.take(n);
        assert(names.drop_last() =~= normalized.take(m));
        assert(names.take(m) =~= normalized.take(m));
        assert(names[m] == normalized[m]);
        let before = jobs_of(resolved, normalized.take(m));
        let jobs = jobs_of(resolved, names);
        assert forall|k: int| 0 <= k < before.len() implies #[trigger] jobs[k] == before[k] by {}
        if first_occurrence(names, m) {
            assert(jobs[before.len() as int].roster_index == m);
            assert forall|a: int| 0 <= a < before.len() implies !same_repo(
                normalized,
                (#[trigger] before[a]).roster_index as int,
                m,
            ) by {
                assert(normalized.take(m)[before[a].roster_index as int]
                    == normalized[before[a].roster_index as int]);
            }
            assert(jobs_distinct(jobs, normalized)) by {
                assert forall|a: int, b: int|
                    #![trigger jobs[a], jobs[b]]
                    0 <= a < b < jobs.len() implies jobs[a].roster_index < jobs[b].roster_index
                    && !same_repo(
                    normalized,
                    jobs[a].roster_index as int,
                    jobs[b].roster_index as int,
                ) by {
                    assert(jobs[a] == before[a]);
                    if b < before.len() {
                        assert(jobs[b] == before[b]);
                    }
                }
            }
        }
        assert forall|i: int| 0 <= i < n implies #[trigger] covered(jobs, normalized, i) by {
            if i < m {
                assert(covered(before, normalized, i));
                let k = choose|k: int|
                    0 <= k < before.len() && same_repo(
                        normalized,
                        (#[trigger] before[k]).roster_index as int,
                        i,
                    );
                assert(jobs[k] == before[k]);
            } else if first_occurrence(names, m) {
                assert(same_repo(normalized, jobs[before.len() as int].roster_index as int, i));
            } else {
                let earlier = normalized.take(m);
                let e = choose|e: int|
                    0 <= e < earlier.len() && components(#[trigger] earlier[e]) == components(
                        names[m],
                    );
                assert(earlier[e] == normalized[e]);
                assert(covered(before, normalized, e));
                let k = choose|k: int|
                    0 <= k < before.len() && same_repo(
                        normalized,
                        (#[trigger] before[k]).roster_index as int,
                        e,
                    );
                assert(jobs[k] == before[k]);
            }
        }
    }
}

/// Every repository of the roster has a job, no two jobs are for the same one,
/// and the jobs stand in the order of the roster.
pub proof fn law_each_repository_has_one_job(resolved: Seq<Seq<u8>>, normalized: Seq<Seq<u8>>)
    ensures
        ({
            let jobs = jobs_of(resolved, normalized);
            &&& jobs_in_place(jobs, resolved, normalized.len() as int)
            &&& jobs_distinct(jobs, normalized)
            &&& forall|i: int|
                0 <= i < normalized.len() ==> #[trigger] covered(jobs, normalized, i)
        }),
{
    lemma_jobs_of(resolved, normalized, normalized.len() as int);
    assert(normalized.take(normalized.len() as int) =~= normalized);
}

/// How many workers share some jobs: at least one, and no more than jobs.
pub fn worker_count(jobs: usize, limit: usize) -> (res: usize)
    ensures
        res == if jobs <= limit {
            jobs as int
        } else if limit == 0 {
            1int
        } else {
            limit as int
        },
        jobs > 0 ==> 1 <= res <= jobs,
{
    let at_least_one: usize = if limit == 0 {
        1
    } else {
        limit
    };
    if jobs < at_least_one {
        jobs
    } else {
        at_least_one
    }
}

// ---------------------------------------------------------------------------
// One job
// ---------------------------------------------------------------------------

/// What the work on one repository came to.
#[derive(Debug, PartialEq, Eq)]
pub struct SourceOutcome {
    pub roster_index: usize,
    pub entry: RepoEntry,
    pub prefix: Option<String>,
    pub verified_prefix: Option<VerifiedRepoPrefix>,
    pub export_called: bool,
    pub issue_prefix_called: bool,
    pub errors: Vec<RepoError>,
}

/// What a [`SourceOutcome`] holds.
pub struct SourceOutcomeModel {
    pub job: SourceJobModel,
    pub prefix: Option<Seq<char>>,
    pub verified: Option<VerifiedModel>,
    pub export_called: bool,
    pub issue_prefix_called: bool,
    pub errors: Seq<RepoErrorModel>,
}

pub open spec fn opt_verified(o: Option<VerifiedRepoPrefix>) -> Option<VerifiedModel> {
    match o {
        Some(v) => Some(v@),
        None => None,
    }
}

impl View for SourceOutcome {
    type V = SourceOutcomeModel;

    open spec fn view(&self) -> SourceOutcomeModel {
        SourceOutcomeModel {
            job: SourceJobModel { roster_index: self.roster_index as nat, path: self.entry@ },
            prefix: opt_text(self.prefix),
            verified: opt_verified(self.verified_prefix),
            export_called: self.export_called,
            issue_prefix_called: self.issue_prefix_called,
            errors: repo_errors_view(self.errors@),
        }
    }
}

/// A job after its export.
#[derive(Debug, PartialEq, Eq)]
pub struct SourceRun {
    pub job: SourceJob,
    pub normalized_path: FsPath,
    pub export_called: bool,
    pub fresh_export_available: bool,
    pub errors: Vec<RepoError>,
}

/// What a [`SourceRun`] holds.
pub struct SourceRunModel {
    pub job: SourceJobModel,
    pub normalized: Seq<u8>,
    pub export_called: bool,
    pub fresh: bool,
    pub errors: Seq<RepoErrorModel>,
}

impl View for SourceRun {
    type V = SourceRunModel;

    open spec fn view(&self) -> SourceRunModel {
        SourceRunModel {
            job: self.job@,
            normalized: self.normalized_path@,
            export_called: self.export_called,
            fresh: self.fresh_export_available,
            errors: repo_errors_view(self.errors@),
        }
    }
}

/// What to do next for a job, or what it came to.
#[derive(Debug, PartialEq, Eq)]
pub enum SourceStep {
    /// Judge a prefix known from before by the exported file.
    CheckCached { run: SourceRun, prefix: String },
    /// Ask `bd` for the prefix.
    ReadPrefix { run: SourceRun },
    /// Judge the prefix that `bd` gave by the exported file, if there is one.
    CheckRead { run: SourceRun, prefix: String },
    /// Nothing is left to do.
    Done { outcome: SourceOutcome },
}

/// What a [`SourceStep`] holds.
pub enum SourceStepModel {
    CheckCached { run: SourceRunModel, prefix: Seq<char> },
    ReadPrefix { run: SourceRunModel },
    CheckRead { run: SourceRunModel, prefix: Seq<char> },
    Done { outcome: SourceOutcomeModel },
}

impl View for SourceStep {
    type V = SourceStepModel;

    open spec fn view(&self) -> SourceStepModel {
        match self {
            SourceStep::CheckCached { run, prefix } => SourceStepModel::CheckCached {
                run: run@,
                prefix: prefix@,
            },
            SourceStep::ReadPrefix { run } => SourceStepModel::ReadPrefix { run: run@ },
            SourceStep::CheckRead { run, prefix } => SourceStepModel::CheckRead {
                run: run@,
                prefix: prefix@,
            },
            SourceStep::Done { outcome } => SourceStepModel::Done { outcome: outcome@ },
        }
    }
}

/// The prefix that an earlier refresh verified for a path.
pub open spec fn cached_prefix(previous: Seq<VerifiedModel>, path: Seq<u8>) -> Option<Seq<char>>
    decreases previous.len(),
{
    if previous.len() == 0 {
        None
    } else if components(previous.last().path) == components(path) {
        Some(previous.last().prefix)
    } else {
        cached_prefix(previous.drop_last(), path)
    }
}

/// The first step after the export: a prefix known from before is tried only
/// against a fresh, complete export.
pub open spec fn source_start(
    job: SourceJobModel,
    normalized: Seq<u8>,
    previous: Seq<VerifiedModel>,
    errors: Seq<RepoErrorModel>,
    exists: bool,
    export_is_file: bool,
) -> SourceStepModel {
    let run = SourceRunModel {
        job,
        normalized,
        export_called: exists,
        fresh: exists && errors.len() == 0 && export_is_file,
        errors,
    };
    match cached_prefix(previous, normalized) {
        Some(prefix) if run.fresh => SourceStepModel::CheckCached { run, prefix },
        _ => SourceStepModel::ReadPrefix { run },
    }
}

/// The outcome of a run.
pub open spec fn run_outcome(
    run: SourceRunModel,
    prefix: Option<Seq<char>>,
    verified: bool,
    asked: bool,
    errors: Seq<RepoErrorModel>,
) -> SourceStepModel {
    SourceStepModel::Done {
        outcome: SourceOutcomeModel {
            job: run.job,
            prefix,
            verified: if verified {
                Some(VerifiedModel { path: run.normalized, prefix: prefix->Some_0 })
            } else {
                None
            },
            export_called: run.export_called,
            issue_prefix_called: asked,
            errors,
        },
    }
}

/// After judging a prefix known from before: only proof lets it stand, and
/// `bd` is asked otherwise.
pub open spec fn after_cached(
    run: SourceRunModel,
    prefix: Seq<char>,
    evidence: Result<ExportPrefixEvidence, IoFailureModel>,
) -> SourceStepModel {
    match evidence {
        Ok(ExportPrefixEvidence::NonEmptyAllMatch) => run_outcome(
            run,
            Some(prefix),
            true,
            false,
            run.errors,
        ),
        Ok(_) => SourceStepModel::ReadPrefix { run },
        Err(e) => SourceStepModel::ReadPrefix {
            run: SourceRunModel {
                errors: run.errors.push(
                    file_failure(
                        run.job.path,
                        ExportOperation::Validate,
                        issues_file(run.job.path),
                        e,
                    ),
                ),
                ..run
            },
        },
    }
}

/// After asking `bd` for the prefix.
pub open spec fn after_prefix(
    run: SourceRunModel,
    answer: Result<Seq<char>, BdErrorModel>,
) -> SourceStepModel {
    match answer {
        Ok(prefix) => SourceStepModel::CheckRead { run, prefix },
        Err(e) => run_outcome(
            run,
            None,
            false,
            true,
            run.errors.push(
                RepoErrorModel::Metadata { repo: run.job.path, detail: bd_error_text(e) },
            ),
        ),
    }
}

/// The words for a prefix that the exported ids refute.
pub open spec fn mismatch_text(prefix: Seq<char>) -> Seq<char> {
    "authoritative prefix `"@ + prefix + "` does not match freshly exported ids"@
}

/// After judging the prefix that `bd` gave: ids that refute it leave the
/// repository without a prefix, and only proof by a fresh export verifies it.
pub open spec fn after_read(
    run: SourceRunModel,
    prefix: Seq<char>,
    evidence: Result<Option<ExportPrefixEvidence>, IoFailureModel>,
) -> SourceStepModel {
    match evidence {
        Ok(Some(ExportPrefixEvidence::NonEmptyAllMatch)) => run_outcome(
            run,
            Some(prefix),
            run.fresh,
            true,
            run.errors,
        ),
        Ok(Some(ExportPrefixEvidence::Mismatch)) => run_outcome(
            run,
            None,
            false,
            true,
            run.errors.push(
                RepoErrorModel::Metadata { repo: run.job.path, detail: mismatch_text(prefix) },
            ),
        ),
        Ok(_) => run_outcome(run, Some(prefix), false, true, run.errors),
        Err(e) => run_outcome(
            run,
            Some(prefix),
            false,
            true,
            run.errors.push(
                file_failure(
                    run.job.path,
                    ExportOperation::Validate,
                    issues_file(run.job.path),
                    e,
                ),
            ),
        ),
    }
}

fn find_cached(previous: &Vec<VerifiedRepoPrefix>, path: &FsPath) -> (res: Option<String>)
    ensures
        opt_text(res) == cached_prefix(verified_view(previous@), path@),
{
    let ghost all = verified_view(previous@);
    let mut i: usize = previous.len();
    assert(all.take(i as int) =~= all);
    while i > 0
        invariant
            i <= previous@.len(),
            all == verified_view(previous@),
            cached_prefix(all, path@) == cached_prefix(all.take(i as int), path@),
        decreases i,
    {
        assert(all.take(i as int).last() == previous@[i - 1]@);
        assert(all.take(i as int).drop_last() =~= all.take(i - 1));
        if previous[i - 1].normalized_path.same_path(path) {
            return Some(previous[i - 1].prefix.clone());
        }
        i -= 1;
    }
    None
}

fn push_error(errors: Vec<RepoError>, e: RepoError) -> (res: Vec<RepoError>)
    ensures
        res@ == errors@.push(e),
        repo_errors_view(res@) == repo_errors_view(errors@).push(e@),
{
    let mut out = errors;
    out.push(e);
    assert(repo_errors_view(out@) =~= repo_errors_view(errors@).push(e@));
    out
}

fn finish(run: SourceRun, prefix: Option<String>, verified: bool, asked: bool) -> (res: SourceStep)
    requires
        verified ==> prefix is Some,
    ensures
        res matches SourceStep::Done { outcome } && outcome.errors == run.errors && outcome.prefix
            == prefix,
        res@ == run_outcome(
            run@,
            opt_text(prefix),
            verified,
            asked,
            repo_errors_view(run.errors@),
        ),
{
    let verified_prefix = if verified {
        match &prefix {
            Some(p) => Some(
                VerifiedRepoPrefix { normalized_path: run.normalized_path, prefix: p.clone() },
            ),
            None => None,
        }
    } else {
        None
    };
    SourceStep::Done {
        outcome: SourceOutcome {
            roster_index: run.job.roster_index,
            entry: run.job.entry,
            prefix,
            verified_prefix,
            export_called: run.export_called,
            issue_prefix_called: asked,
            errors: run.errors,
        },
    }
}

/// Starts the work on a repository after its export. `errors` are the
/// failures of the export, `exists` tells whether the repository does, and
/// `export_is_file` whether its exported file does.
pub fn run_source_job(
    job: SourceJob,
    normalized_path: FsPath,
    previous: &Vec<VerifiedRepoPrefix>,
    errors: Vec<RepoError>,
    exists: bool,
    export_is_file: bool,
) -> (res: SourceStep)
    ensures
        res@ == source_start(
            job@,
            normalized_path@,
            verified_view(previous@),
            repo_errors_view(errors@),
            exists,
            export_is_file,
        ),
{
    let cached = find_cached(previous, &normalized_path);
    let fresh: bool = exists && errors.len() == 0 && export_is_file;
    let run = SourceRun {
        job,
        normalized_path,
        export_called: exists,
        fresh_export_available: fresh,
        errors,
    };
    match cached {
        Some(prefix) => if fresh {
            SourceStep::CheckCached { run, prefix }
        } else {
            SourceStep::ReadPrefix { run }
        },
        None => SourceStep::ReadPrefix { run },
    }
}

/// What a judgement by the exported file came to.
pub open spec fn evidence_result(
    r: Result<ExportPrefixEvidence, IoFailure>,
) -> Result<ExportPrefixEvidence, IoFailureModel> {
    match r {
        Ok(e) => Ok(e),
        Err(e) => Err(e@),
    }
}

/// After judging a prefix known from before.
pub fn cached_checked(
    run: SourceRun,
    prefix: String,
    evidence: Result<ExportPrefixEvidence, IoFailure>,
) -> (res: SourceStep)
    ensures
        res@ == after_cached(run@, prefix@, evidence_result(evidence)),
{
    match evidence {
        Ok(found) => if found == ExportPrefixEvidence::NonEmptyAllMatch {
            finish(run, Some(prefix), true, false)
        } else {
            SourceStep::ReadPrefix { run }
        },
        Err(e) => {
            let canonical = canonical_export(&run.job.entry.path);
            let error = file_error(
                &run.job.entry.path,
                ExportOperation::Validate,
                &canonical,
                &e,
            );
            SourceStep::ReadPrefix {
                run: SourceRun {
                    job: run.job,
                    normalized_path: run.normalized_path,
                    export_called: run.export_called,
                    fresh_export_available: run.fresh_export_available,
                    errors: push_error(run.errors, error),
                },
            }
        },
    }
}

/// What `bd` answered when asked for a prefix.
pub open spec fn prefix_result(r: Result<String, BdError>) -> Result<Seq<char>, BdErrorModel> {
    match r {
        Ok(p) => Ok(p@),
        Err(e) => Err(e@),
    }
}

/// After asking `bd` for the prefix.
pub fn prefix_read(run: SourceRun, answer: Result<String, BdError>) -> (res: SourceStep)
    ensures
        res@ == after_prefix(run@, prefix_result(answer)),
{
    match answer {
        Ok(prefix) => SourceStep::CheckRead { run, prefix },
        Err(e) => {
            let error = RepoError::Metadata {
                repo: run.job.entry.path.clone(),
                detail: e.message(),
            };
            let failed = SourceRun {
                job: run.job,
                normalized_path: run.normalized_path,
                export_called: run.export_called,
                fresh_export_available: run.fresh_export_available,
                errors: push_error(run.errors, error),
            };
            finish(failed, None, false, true)
        },
    }
}

/// What a judgement by an exported file that may be missing came to.
pub open spec fn opt_evidence_result(
    r: Result<Option<ExportPrefixEvidence>, IoFailure>,
) -> Result<Option<ExportPrefixEvidence>, IoFailureModel> {
    match r {
        Ok(e) => Ok(e),
        Err(e) => Err(e@),
    }
}

/// After judging the prefix that `bd` gave.
pub fn read_checked(
    run: SourceRun,
    prefix: String,
    evidence: Result<Option<ExportPrefixEvidence>, IoFailure>,
) -> (res: SourceStep)
    ensures
        res@ == after_read(run@, prefix@, opt_evidence_result(evidence)),
        evidence == Ok::<Option<ExportPrefixEvidence>, IoFailure>(
            Some(ExportPrefixEvidence::NonEmptyAllMatch),
        ) ==> (res matches SourceStep::Done { outcome } && outcome.errors@.len()
            == run.errors@.len() && opt_text(outcome.prefix) == Some(prefix@)),
        evidence == Ok::<Option<ExportPrefixEvidence>, IoFailure>(
            Some(ExportPrefixEvidence::Mismatch),
        ) ==> (res matches SourceStep::Done { outcome } && outcome.errors@.len()
            == run.errors@.len() + 1 && outcome.prefix is None),
{
    match evidence {
        Ok(Some(found)) => match found {
            ExportPrefixEvidence::NonEmptyAllMatch => {
                let fresh: bool = run.fresh_export_available;
                finish(run, Some(prefix), fresh, true)
            },
            ExportPrefixEvidence::Mismatch => {
                let mut detail = String::from_str("authoritative prefix `");
                detail.append(prefix.as_str());
                detail.append("` does not match freshly exported ids");
                let error = RepoError::Metadata { repo: run.job.entry.path.clone(), detail };
                let failed = SourceRun {
                    job: run.job,
                    normalized_path: run.normalized_path,
                    export_called: run.export_called,
                    fresh_export_available: run.fresh_export_available,
                    errors: push_error(run.errors, error),
                };
                finish(failed, None, false, true)
            },
            _ => finish(run, Some(prefix), false, true),
        },
        Ok(None) => finish(run, Some(prefix), false, true),
        Err(e) => {
            let canonical = canonical_export(&run.job.entry.path);
            let error = file_error(
                &run.job.entry.path,
                ExportOperation::Validate,
                &canonical,
                &e,
            );
            let failed = SourceRun {
                job: run.job,
                normalized_path: run.normalized_path,
                export_called: run.export_called,
                fresh_export_available: run.fresh_export_available,
                errors: push_error(run.errors, error),
            };
            finish(failed, Some(prefix), false, true)
        },
    }
}

/// The whole work on a repository after its export, given what the exported
/// file says about a prefix and what `bd` answers.
pub open spec fn source_result(
    start: SourceStepModel,
    cached_evidence: Result<ExportPrefixEvidence, IoFailureModel>,
    answer: Result<Seq<char>, BdErrorModel>,
    read_evidence: Result<Option<ExportPrefixEvidence>, IoFailureModel>,
) -> SourceOutcomeModel {
    let asked = match start {
        SourceStepModel::CheckCached { run, prefix } => after_cached(run, prefix, cached_evidence),
        _ => start,
    };
    let read = match asked {
        SourceStepModel::ReadPrefix { run } => after_prefix(run, answer),
        _ => asked,
    };
    let last = match read {
        SourceStepModel::CheckRead { run, prefix } => after_read(run, prefix, read_evidence),
        _ => read,
    };
    last->Done_outcome
}

/// The prefix of an earlier refresh is reused without asking `bd` exactly when
/// the export is fresh and its ids prove that prefix; `bd` is asked otherwise.
pub proof fn law_reuse_needs_proof(
    job: SourceJobModel,
    normalized: Seq<u8>,
    previous: Seq<VerifiedModel>,
    errors: Seq<RepoErrorModel>,
    exists: bool,
    export_is_file: bool,
    cached_evidence: Result<ExportPrefixEvidence, IoFailureModel>,
    answer: Result<Seq<char>, BdErrorModel>,
    read_evidence: Result<Option<ExportPrefixEvidence>, IoFailureModel>,
)
    ensures
        ({
            let start = source_start(job, normalized, previous, errors, exists, export_is_file);
            let outcome = source_result(start, cached_evidence, answer, read_evidence);
            let reused = exists && export_is_file && errors.len() == 0 && cached_prefix(
                previous,
                normalized,
            ) is Some && cached_evidence == Ok::<ExportPrefixEvidence, IoFailureModel>(
                ExportPrefixEvidence::NonEmptyAllMatch,
            );
            &&& outcome.issue_prefix_called == !reused
            &&& reused ==> outcome.prefix == cached_prefix(previous, normalized)
            &&& outcome.job == job
            &&& outcome.export_called == exists
        }),
{
}

/// A prefix counts as verified only where a fresh export proves it, and the
/// verified prefix is the one that the repository is attributed by. Ids that
/// refute the prefix leave the repository unattributed and reported.
pub proof fn law_only_proof_verifies(
    job: SourceJobModel,
    normalized: Seq<u8>,
    previous: Seq<VerifiedModel>,
    errors: Seq<RepoErrorModel>,
    exists: bool,
    export_is_file: bool,
    cached_evidence: Result<ExportPrefixEvidence, IoFailureModel>,
    answer: Result<Seq<char>, BdErrorModel>,
    read_evidence: Result<Option<ExportPrefixEvidence>, IoFailureModel>,
)
    ensures
        ({
            let start = source_start(job, normalized, previous, errors, exists, export_is_file);
            let outcome = source_result(start, cached_evidence, answer, read_evidence);
            &&& outcome.verified matches Some(v) ==> exists && export_is_file && errors.len() == 0
                && v.path == normalized && outcome.prefix == Some(v.prefix)
            &&& outcome.verified is Some ==> if outcome.issue_prefix_called {
                read_evidence == Ok::<Option<ExportPrefixEvidence>, IoFailureModel>(
                    Some(ExportPrefixEvidence::NonEmptyAllMatch),
                )
            } else {
                cached_evidence == Ok::<ExportPrefixEvidence, IoFailureModel>(
                    ExportPrefixEvidence::NonEmptyAllMatch,
                )
            }
            &&& outcome.prefix is None ==> outcome.errors.len() > errors.len()
            &&& outcome.issue_prefix_called && read_evidence == Ok::<
                Option<ExportPrefixEvidence>,
                IoFailureModel,
            >(Some(ExportPrefixEvidence::Mismatch)) ==> outcome.prefix is None
        }),
{
}

/// The repository that a failure is about.
pub open spec fn failed_repo(e: RepoErrorModel) -> Seq<u8> {
    match e {
        RepoErrorModel::Export { repo, .. } => repo,
        RepoErrorModel::Metadata { repo, .. } => repo,
        RepoErrorModel::ExportFile { repo, .. } => repo,
    }
}

/// No failure of a repository is lost: its outcome lists those of the export
/// first, then that of reading the prefix, and all of them name the repository.
/// A repository without a prefix has a failure to show for it.
pub proof fn law_a_failure_is_never_lost(
    job: SourceJobModel,
    normalized: Seq<u8>,
    previous: Seq<VerifiedModel>,
    errors: Seq<RepoErrorModel>,
    exists: bool,
    export_is_file: bool,
    cached_evidence: Result<ExportPrefixEvidence, IoFailureModel>,
    answer: Result<Seq<char>, BdErrorModel>,
    read_evidence: Result<Option<ExportPrefixEvidence>, IoFailureModel>,
)
    requires
        forall|i: int| 0 <= i < errors.len() ==> failed_repo(#[trigger] errors[i]) == job.path,
    ensures
        ({
            let start = source_start(job, normalized, previous, errors, exists, export_is_file);
            let outcome = source_result(start, cached_evidence, answer, read_evidence);
            &&& errors.is_prefix_of(outcome.errors)
            &&& outcome.prefix is None ==> outcome.errors.len() > 0
            &&& outcome.issue_prefix_called && answer is Err ==> outcome.errors.last() == (
            RepoErrorModel::Metadata { repo: job.path, detail: bd_error_text(answer->Err_0) })
            &&& forall|i: int|
                0 <= i < outcome.errors.len() ==> failed_repo(#[trigger] outcome.errors[i])
                    == job.path
        }),
{
    let start = source_start(job, normalized, previous, errors, exists, export_is_file);
    let outcome = source_result(start, cached_evidence, answer, read_evidence);
    assert(errors =~= outcome.errors.subrange(0, errors.len() as int));
}

/// A failure is reported only where something failed. To the failures of the
/// export come at most two: one where the exported file could not be read for a
/// prefix known from before, and one where `bd` gave no prefix, where its
/// prefix could not be judged, or where exported ids refute it. Without such a
/// cause nothing is added.
pub proof fn law_every_reported_failure_has_a_cause(
    job: SourceJobModel,
    normalized: Seq<u8>,
    previous: Seq<VerifiedModel>,
    errors: Seq<RepoErrorModel>,
    exists: bool,
    export_is_file: bool,
    cached_evidence: Result<ExportPrefixEvidence, IoFailureModel>,
    answer: Result<Seq<char>, BdErrorModel>,
    read_evidence: Result<Option<ExportPrefixEvidence>, IoFailureModel>,
)
    ensures
        ({
            let start = source_start(job, normalized, previous, errors, exists, export_is_file);
            let outcome = source_result(start, cached_evidence, answer, read_evidence);
            let complete = exists && export_is_file && errors.len() == 0;
            let tried = complete && cached_prefix(previous, normalized) is Some;
            let unread = tried && cached_evidence is Err;
            let asked = outcome.issue_prefix_called;
            let refuted = read_evidence == Ok::<Option<ExportPrefixEvidence>, IoFailureModel>(
                Some(ExportPrefixEvidence::Mismatch),
            );
            let failed = asked && (answer is Err || read_evidence is Err || refuted);
            &&& errors.is_prefix_of(outcome.errors)
            &&& outcome.errors.len() == errors.len() + (if unread {
                1int
            } else {
                0
            }) + (if failed {
                1int
            } else {
                0
            })
            &&& !unread && !failed ==> outcome.errors == errors
            &&& unread ==> outcome.errors[0] is ExportFile && failed_repo(outcome.errors[0])
                == job.path
            &&& asked && (answer is Err || refuted) ==> outcome.errors.last() is Metadata
                && failed_repo(outcome.errors.last()) == job.path
            &&& asked && answer is Ok && read_evidence is Err ==> outcome.errors.last()
                is ExportFile && failed_repo(outcome.errors.last()) == job.path
        }),
{
    let start = source_start(job, normalized, previous, errors, exists, export_is_file);
    let outcome = source_result(start, cached_evidence, answer, read_evidence);
    assert(errors =~= outcome.errors.subrange(0, errors.len() as int));
}

/// A repository without any trouble is attributed and verified without a word:
/// its export is complete, `bd` names a prefix and every exported id is under
/// it. More generally, a prefix that `bd` names is the repository's unless
/// exported ids refute it, and a proof by a complete export always verifies.
pub proof fn law_a_healthy_repository_is_verified(
    job: SourceJobModel,
    normalized: Seq<u8>,
    previous: Seq<VerifiedModel>,
    errors: Seq<RepoErrorModel>,
    exists: bool,
    export_is_file: bool,
    cached_evidence: Result<ExportPrefixEvidence, IoFailureModel>,
    answer: Result<Seq<char>, BdErrorModel>,
    read_evidence: Result<Option<ExportPrefixEvidence>, IoFailureModel>,
)
    ensures
        ({
            let start = source_start(job, normalized, previous, errors, exists, export_is_file);
            let outcome = source_result(start, cached_evidence, answer, read_evidence);
            let complete = exists && export_is_file && errors.len() == 0;
            let proved = read_evidence == Ok::<Option<ExportPrefixEvidence>, IoFailureModel>(
                Some(ExportPrefixEvidence::NonEmptyAllMatch),
            );
            let refuted = read_evidence == Ok::<Option<ExportPrefixEvidence>, IoFailureModel>(
                Some(ExportPrefixEvidence::Mismatch),
            );
            &&& complete && cached_prefix(previous, normalized) is None && answer is Ok && proved
                ==> {
                &&& outcome.errors.len() == 0
                &&& outcome.prefix == Some(answer->Ok_0)
                &&& outcome.verified == Some(
                    VerifiedModel { path: normalized, prefix: answer->Ok_0 },
                )
            }
            &&& outcome.issue_prefix_called && answer is Ok && !refuted ==> outcome.prefix == Some(
                answer->Ok_0,
            )
            &&& outcome.issue_prefix_called && (answer is Err || refuted) ==> outcome.prefix is None
            &&& outcome.verified is Some <==> complete && if outcome.issue_prefix_called {
                answer is Ok && proved
            } else {
                cached_prefix(previous, normalized) is Some
            }
        }),
{
}

/// The prefix known from before is that of the last entry for the repository's
/// path, and there is one exactly where there is such an entry.
pub proof fn law_the_known_prefix_is_of_the_same_path(
    previous: Seq<VerifiedModel>,
    path: Seq<u8>,
)
    ensures
        match cached_prefix(previous, path) {
            Some(prefix) => exists|k: int|
                0 <= k < previous.len() && components((#[trigger] previous[k]).path) == components(
                    path,
                ) && previous[k].prefix == prefix && forall|l: int|
                    k < l < previous.len() ==> components((#[trigger] previous[l]).path)
                        != components(path),
            None => forall|k: int|
                0 <= k < previous.len() ==> components((#[trigger] previous[k]).path)
                    != components(path),
        },
    decreases previous.len(),
{
    if previous.len() > 0 {
        let rest = previous.drop_last();
        law_the_known_prefix_is_of_the_same_path(rest, path);
        let n = previous.len() - 1;
        assert(previous[n] == previous.last());
        assert forall|k: int| 0 <= k < n implies #[trigger] previous[k] == rest[k] by {}
        if components(previous[n].path) != components(path) && cached_prefix(previous, path)
            is Some {
            let prefix = cached_prefix(rest, path)->Some_0;
            let k = choose|k: int|
                0 <= k < rest.len() && components((#[trigger] rest[k]).path) == components(path)
                    && rest[k].prefix == prefix && forall|l: int|
                    k < l < rest.len() ==> components((#[trigger] rest[l]).path) != components(
                        path,
                    );
            assert(previous[k] == rest[k]);
            assert forall|l: int| k < l < previous.len() implies components(
                (#[trigger] previous[l]).path,
            ) != components(path) by {
                if l < n {
                    assert(rest[l] == previous[l]);
                }
            }
        }
    }
}

/// A refuted prefix is named in the failure.
pub proof fn law_a_refuted_prefix_is_named(prefix: Seq<char>, other: Seq<char>)
    ensures
        exists|i: int|
            0 <= i <= mismatch_text(prefix).len() - prefix.len() && #[trigger] mismatch_text(
                prefix,
            ).subrange(i, i + prefix.len()) == prefix,
        mismatch_text(prefix) == mismatch_text(other) ==> prefix == other,
{
    let head = "authoritative prefix `"@;
    let tail = "` does not match freshly exported ids"@;
    let n = head.len() as int;
    assert(mismatch_text(prefix).subrange(n, n + prefix.len()) =~= prefix);
    assert(mismatch_text(other).subrange(n, n + other.len()) =~= other);
    assert(mismatch_text(prefix).len() == n + prefix.len() + tail.len());
    assert(mismatch_text(other).len() == n + other.len() + tail.len());
}

/// What the exported file and `bd` say is judged as they said it.
pub proof fn law_answers_are_judged_as_given(
    cached: Result<ExportPrefixEvidence, IoFailure>,
    read: Result<Option<ExportPrefixEvidence>, IoFailure>,
    answer: Result<String, BdError>,
)
    ensures
        cached matches Ok(e) ==> evidence_result(cached) == Ok::<
            ExportPrefixEvidence,
            IoFailureModel,
        >(e),
        cached matches Err(e) ==> evidence_result(cached) == Err::<
            ExportPrefixEvidence,
            IoFailureModel,
        >(e@),
        read matches Ok(e) ==> opt_evidence_result(read) == Ok::<
            Option<ExportPrefixEvidence>,
            IoFailureModel,
        >(e),
        read matches Err(e) ==> opt_evidence_result(read) == Err::<
            Option<ExportPrefixEvidence>,
            IoFailureModel,
        >(e@),
        answer matches Ok(p) ==> prefix_result(answer) == Ok::<Seq<char>, BdErrorModel>(p@),
        answer matches Err(e) ==> prefix_result(answer) == Err::<Seq<char>, BdErrorModel>(e@),
{
}

/// Every entry of the roster is resolved by itself, in its place.
pub proof fn law_every_entry_is_resolved(paths: PathsModel, roster: Seq<Seq<u8>>, i: int)
    requires
        0 <= i < roster.len(),
    ensures
        resolved_roster_view(paths, roster).len() == roster.len(),
        rooted(roster[i]) ==> resolved_roster_view(paths, roster)[i] == roster[i],
        resolved_roster_view(paths, roster)[i] == resolved_roster_path(paths, roster[i]),
{
}

/// What is said of the work on a repository is what it holds, each part in its
/// own place.
pub proof fn law_an_outcome_is_told_as_it_is(
    outcome: SourceOutcome,
    run: SourceRun,
    verified: VerifiedRepoPrefix,
)
    ensures
        outcome@.export_called == outcome.export_called,
        outcome@.issue_prefix_called == outcome.issue_prefix_called,
        outcome@.job.roster_index == outcome.roster_index,
        outcome@.job.path == outcome.entry.path@,
        outcome@.errors.len() == outcome.errors@.len(),
        outcome@.verified is Some <==> outcome.verified_prefix is Some,
        outcome.prefix matches Some(p) ==> outcome@.prefix == Some(p@),
        outcome.prefix is None ==> outcome@.prefix is None,
        run@.export_called == run.export_called,
        run@.fresh == run.fresh_export_available,
        run@.normalized == run.normalized_path@,
        verified@.path == verified.normalized_path@,
        verified@.prefix == verified.prefix@,
{
}

} // verus!
