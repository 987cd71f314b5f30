//! The snapshot that was last shown, kept on disk so that a launch can show it
//! at once.
//!
//! What is not there, cannot be read, is too old or belongs to another roster
//! is simply not shown.
use vstd::prelude::*;
use vstd::string::*;
use crate::config::{beside, sibling, temp_beside, temp_name, Config};
use crate::io::{io_result, IoFailure, IoFailureModel, IoKind};
use crate::path::{file_name_bytes, lossy_utf8, parent_path, FsPath};
use crate::snapshot::{rows_view, Row, RowModel, Snapshot, SnapshotModel};
use crate::time::Timestamp;

verus! {

/// A snapshot older than this many nanoseconds (twelve hours) is not shown.
pub const MAX_AGE: u128 = 43_200_000_000_000;

/// What the cache file holds: a snapshot, and the roster it was fetched for.
#[derive(Debug, Clone, PartialEq, Eq)]
pub struct CacheFile {
    pub roster: Config,
    pub snapshot: Snapshot,
}

/// What a [`CacheFile`] holds.
pub struct CacheModel {
    pub roster: Seq<Seq<u8>>,
    pub snapshot: SnapshotModel,
}

impl View for CacheFile {
    type V = CacheModel;

    open spec fn view(&self) -> CacheModel {
        CacheModel { roster: self.roster@, snapshot: self.snapshot@ }
    }
}

/// Whether a snapshot is neither too old nor from the future.
pub open spec fn is_fresh(fetched_at: int, now: int) -> bool {
    0 <= now - fetched_at <= MAX_AGE
}

/// The snapshot that a launch shows.
pub open spec fn loaded(cached: Option<CacheModel>, now: int, roster: Seq<Seq<u8>>) -> Option<
    SnapshotModel,
> {
    match cached {
        Some(c) if c.roster == roster && is_fresh(c.snapshot.fetched_at, now) => Some(c.snapshot),
        _ => None,
    }
}

/// What the cache holds after a snapshot is to be saved: it never goes back
/// to older data.
pub open spec fn stored(existing: Option<CacheModel>, new: CacheModel) -> Option<CacheModel> {
    match existing {
        Some(e) if e.snapshot.fetched_at >= new.snapshot.fetched_at => existing,
        _ => Some(new),
    }
}

pub open spec fn opt_cache(o: Option<CacheFile>) -> Option<CacheModel> {
    match o {
        Some(c) => Some(c@),
        None => None,
    }
}

pub open spec fn opt_snapshot(o: Option<Snapshot>) -> Option<SnapshotModel> {
    match o {
        Some(s) => Some(s@),
        None => None,
    }
}

/// The cached snapshot, if it was fetched for this roster and is fresh.
/// `cached` is none where there is no file or it cannot be read.
pub fn load(cached: Option<CacheFile>, now: Timestamp, roster: &Config) -> (res: Option<Snapshot>)
    ensures
        opt_snapshot(res) == loaded(opt_cache(cached), now@, roster@),
{
    match cached {
        None => None,
        Some(c) => {
            if !c.roster.same_roster(roster) {
                return None;
            }
            match now.nanos_since(&c.snapshot.fetched_at) {
                None => None,
                Some(age) => if age > MAX_AGE {
                    None
                } else {
                    Some(c.snapshot)
                },
            }
        },
    }
}

/// A row as it is written: an attribution generation means nothing to another
/// process, so none is kept.
pub open spec fn durable_row(r: RowModel) -> RowModel {
    RowModel { generation: None, ..r }
}

/// A snapshot as it is written.
pub open spec fn durable(s: SnapshotModel) -> SnapshotModel {
    SnapshotModel { rows: s.rows.map_values(|r: RowModel| durable_row(r)), ..s }
}

/// What is written for a snapshot that was fetched for a roster.
pub open spec fn cache_entry(s: SnapshotModel, roster: Seq<Seq<u8>>) -> CacheModel {
    CacheModel { roster, snapshot: durable(s) }
}

fn durable_copy(snapshot: &Snapshot) -> (res: Snapshot)
    ensures
        res@ == durable(snapshot@),
{
    let mut rows: Vec<Row> = Vec::new();
    let mut i: usize = 0;
    while i < snapshot.rows.len()
        invariant
            i <= snapshot.rows@.len(),
            rows@.len() == i,
            forall|k: int|
                0 <= k < i ==> (#[trigger] rows@[k])@ == durable_row(snapshot.rows@[k]@),
        decreases snapshot.rows@.len() - i,
    {
        let row = snapshot.rows[i].clone();
        rows.push(
            Row {
                issue: row.issue,
                repo_id: row.repo_id,
                repo_name: row.repo_name,
                attribution_generation: None,
            },
        );
        i += 1;
    }
    assert(rows_view(rows@) =~= durable(snapshot@).rows);
    Snapshot { rows, fetched_at: snapshot.fetched_at }
}

/// What to write for a snapshot; nothing where the cache already holds data
/// that is as new or newer.
pub fn save(existing: &Option<CacheFile>, snapshot: &Snapshot, roster: &Config) -> (res: Option<
    CacheFile,
>)
    ensures
        match res {
            Some(c) => c@ == cache_entry(snapshot@, roster@) && stored(opt_cache(*existing), c@)
                == Some(c@),
            None => stored(opt_cache(*existing), cache_entry(snapshot@, roster@)) == opt_cache(
                *existing,
            ) && *existing is Some,
        },
        res is None <==> (*existing matches Some(e) && e@.snapshot.fetched_at
            >= snapshot@.fetched_at),
{
    match existing {
        Some(e) => {
            if e.snapshot.fetched_at.not_before(&snapshot.fetched_at) {
                return None;
            }
        },
        None => {},
    }
    Some(CacheFile { roster: roster.clone(), snapshot: durable_copy(snapshot) })
}

/// The name of the cache file as text.
pub open spec fn shown_name(path: Seq<u8>) -> Seq<char> {
    match file_name_bytes(path) {
        Some(name) => lossy_utf8(name),
        None => "snapshot_cache.json"@,
    }
}

fn name_text(path: &FsPath) -> (res: String)
    ensures
        res@ == shown_name(path@),
{
    match path.file_name() {
        Some(name) => name.display(),
        None => String::from_str("snapshot_cache.json"),
    }
}

/// The file through which the cache is replaced.
pub fn temp_path(path: &FsPath, process: u32) -> (res: FsPath)
    ensures
        res@ == temp_for(path@, process as nat),
{
    temp_beside(path, name_text(path).as_str(), process)
}

/// The file that is locked while the cache is compared and replaced.
pub fn lock_path(path: &FsPath) -> (res: FsPath)
    ensures
        res@ == lock_for(path@),
{
    let mut name = name_text(path);
    name.append(".lock");
    sibling(path, name.as_str())
}

/// What to do next to save a snapshot, or how that ended.
#[derive(Debug, PartialEq, Eq)]
pub enum SaveStep {
    /// Create the directory of the cache file.
    CreateDir { dir: FsPath },
    /// Lock this file, waiting for other instances.
    Lock { file: FsPath },
    /// Read what the cache holds, with the lock held.
    Read,
    /// Replace the cache file by this entry through the sibling, with the lock
    /// held.
    Replace { entry: CacheFile, temp: FsPath, path: FsPath },
    /// Nothing is left to do.
    Done,
    /// Nothing more: the snapshot could not be saved.
    Failed { failure: IoFailure },
}

/// What a [`SaveStep`] holds.
pub enum SaveStepModel {
    CreateDir { dir: Seq<u8> },
    Lock { file: Seq<u8> },
    Read,
    Replace { entry: CacheModel, temp: Seq<u8>, path: Seq<u8> },
    Done,
    Failed { failure: IoFailureModel },
}

impl View for SaveStep {
    type V = SaveStepModel;

    open spec fn view(&self) -> SaveStepModel {
        match self {
            SaveStep::CreateDir { dir } => SaveStepModel::CreateDir { dir: dir@ },
            SaveStep::Lock { file } => SaveStepModel::Lock { file: file@ },
            SaveStep::Read => SaveStepModel::Read,
            SaveStep::Replace { entry, temp, path } => SaveStepModel::Replace {
                entry: entry@,
                temp: temp@,
                path: path@,
            },
            SaveStep::Done => SaveStepModel::Done,
            SaveStep::Failed { failure } => SaveStepModel::Failed { failure: failure@ },
        }
    }
}

/// What came of a step of saving a snapshot.
pub enum SaveEvent {
    DirCreated(Result<(), IoFailureModel>),
    Locked(Result<(), IoFailureModel>),
    /// What the cache holds; none where there is no file or it cannot be read.
    ReadBack(Option<CacheModel>),
    Replaced(Result<(), IoFailureModel>),
}

/// The file that is locked for a cache file.
pub open spec fn lock_for(path: Seq<u8>) -> Seq<u8> {
    beside(path, shown_name(path) + ".lock"@)
}

/// The sibling through which a process replaces a cache file.
pub open spec fn temp_for(path: Seq<u8>, process: nat) -> Seq<u8> {
    beside(path, temp_name(shown_name(path), process))
}

/// The first step of saving to a cache file.
pub open spec fn save_start(path: Seq<u8>) -> SaveStepModel {
    match parent_path(path) {
        Some(dir) if dir.len() > 0 => SaveStepModel::CreateDir { dir },
        _ => SaveStepModel::Lock { file: lock_for(path) },
    }
}

/// The step after an outcome, where a process saves `new` to a cache file. An
/// outcome of something else than what was asked for changes nothing.
pub open spec fn save_next(
    path: Seq<u8>,
    process: nat,
    new: CacheModel,
    step: SaveStepModel,
    event: SaveEvent,
) -> SaveStepModel {
    match (step, event) {
        (SaveStepModel::CreateDir { .. }, SaveEvent::DirCreated(result)) => match result {
            Ok(_) => SaveStepModel::Lock { file: lock_for(path) },
            Err(failure) => SaveStepModel::Failed { failure },
        },
        (SaveStepModel::Lock { .. }, SaveEvent::Locked(result)) => match result {
            Ok(_) => SaveStepModel::Read,
            Err(failure) => SaveStepModel::Failed { failure },
        },
        (SaveStepModel::Read, SaveEvent::ReadBack(existing)) => if existing matches Some(e)
            && e.snapshot.fetched_at >= new.snapshot.fetched_at {
            SaveStepModel::Done
        } else {
            SaveStepModel::Replace { entry: new, temp: temp_for(path, process), path }
        },
        (SaveStepModel::Replace { .. }, SaveEvent::Replaced(result)) => match result {
            Ok(_) => SaveStepModel::Done,
            Err(failure) => SaveStepModel::Failed { failure },
        },
        _ => step,
    }
}

/// Starts to save to a cache file.
pub fn start_save(path: &FsPath) -> (res: SaveStep)
    ensures
        res@ == save_start(path@),
{
    match path.parent() {
        Some(dir) => if dir.is_empty() {
            SaveStep::Lock { file: lock_path(path) }
        } else {
            SaveStep::CreateDir { dir }
        },
        None => SaveStep::Lock { file: lock_path(path) },
    }
}

/// After creating the directory.
pub fn save_dir_created(path: &FsPath, result: Result<(), IoFailure>) -> (res: SaveStep)
    ensures
        forall|process: nat, new: CacheModel, dir: Seq<u8>|
            res@ == #[trigger] save_next(
                path@,
                process,
                new,
                SaveStepModel::CreateDir { dir },
                SaveEvent::DirCreated(io_result(result)),
            ),
{
    match result {
        Ok(()) => SaveStep::Lock { file: lock_path(path) },
        Err(failure) => SaveStep::Failed { failure },
    }
}

/// After locking.
pub fn save_locked(result: Result<(), IoFailure>) -> (res: SaveStep)
    ensures
        forall|path: Seq<u8>, process: nat, new: CacheModel, file: Seq<u8>|
            res@ == #[trigger] save_next(
                path,
                process,
                new,
                SaveStepModel::Lock { file },
                SaveEvent::Locked(io_result(result)),
            ),
{
    match result {
        Ok(()) => SaveStep::Read,
        Err(failure) => SaveStep::Failed { failure },
    }
}

/// After reading what the cache holds.
pub fn save_read(
    path: &FsPath,
    process: u32,
    existing: &Option<CacheFile>,
    snapshot: &Snapshot,
    roster: &Config,
) -> (res: SaveStep)
    ensures
        res@ == save_next(
            path@,
            process as nat,
            cache_entry(snapshot@, roster@),
            SaveStepModel::Read,
            SaveEvent::ReadBack(opt_cache(*existing)),
        ),
{
    match save(existing, snapshot, roster) {
        Some(entry) => SaveStep::Replace {
            entry,
            temp: temp_path(path, process),
            path: path.clone(),
        },
        None => SaveStep::Done,
    }
}

/// After replacing the cache file.
pub fn save_replaced(result: Result<(), IoFailure>) -> (res: SaveStep)
    ensures
        forall|
            at: Seq<u8>,
            process: nat,
            new: CacheModel,
            entry: CacheModel,
            temp: Seq<u8>,
            path: Seq<u8>,
        |
            res@ == #[trigger] save_next(
                at,
                process,
                new,
                SaveStepModel::Replace { entry, temp, path },
                SaveEvent::Replaced(io_result(result)),
            ),
{
    match result {
        Ok(()) => SaveStep::Done,
        Err(failure) => SaveStep::Failed { failure },
    }
}

/// Saving a snapshot: the steps, what came of each, and what the cache holds
/// before each.
pub struct SaveRun {
    pub steps: Seq<SaveStepModel>,
    pub events: Seq<SaveEvent>,
    pub held: Seq<Option<CacheModel>>,
}

/// Whether `event` is what comes of a step where the cache holds `held`, and
/// `after` is what it holds then. Before the lock is held, other instances may
/// save too.
pub open spec fn save_does(
    held: Option<CacheModel>,
    step: SaveStepModel,
    event: SaveEvent,
    after: Option<CacheModel>,
) -> bool {
    match (step, event) {
        (SaveStepModel::CreateDir { .. }, SaveEvent::DirCreated(_)) => true,
        (SaveStepModel::Lock { .. }, SaveEvent::Locked(_)) => true,
        (SaveStepModel::Read, SaveEvent::ReadBack(existing)) => existing == held && after == held,
        (SaveStepModel::Replace { entry, .. }, SaveEvent::Replaced(result)) => after == match result {
            Ok(_) => Some(entry),
            Err(_) => held,
        },
        _ => false,
    }
}

/// Whether saving `new` went like this.
pub open spec fn is_save(path: Seq<u8>, process: nat, new: CacheModel, run: SaveRun) -> bool {
    &&& run.steps.len() == run.events.len() + 1
    &&& run.held.len() == run.steps.len()
    &&& run.steps[0] == save_start(path)
    &&& forall|i: int|
        0 <= i < run.events.len() ==> {
            &&& save_does(#[trigger] run.held[i], run.steps[i], run.events[i], run.held[i + 1])
            &&& run.steps[i + 1] == save_next(path, process, new, run.steps[i], run.events[i])
        }
}

/// Whether a save read the cache at its step `r`.
pub open spec fn read_at(run: SaveRun, r: int) -> bool {
    0 <= r < run.steps.len() && run.steps[r] is Read
}

/// A save that is done has put the newer of the two in the cache: what it found
/// there under the lock, or its own snapshot. A save that fails leaves the cache
/// as it found it; and one that finds data as new as its own never writes.
pub proof fn law_a_save_keeps_the_newer(
    path: Seq<u8>,
    process: nat,
    new: CacheModel,
    run: SaveRun,
    i: int,
)
    requires
        is_save(path, process, new, run),
        0 <= i < run.steps.len(),
    ensures
        match run.steps[i] {
            SaveStepModel::CreateDir { .. } => true,
            SaveStepModel::Lock { .. } => true,
            SaveStepModel::Read => true,
            SaveStepModel::Replace { entry, .. } => entry == new && exists|r: int| #[trigger]
                read_at(run, r) && r < i && run.held[i] == run.held[r] && stored(
                    run.held[r],
                    new,
                ) == Some(new),
            SaveStepModel::Done => exists|r: int| #[trigger]
                read_at(run, r) && r < i && run.held[i] == stored(run.held[r], new),
            SaveStepModel::Failed { .. } => forall|r: int| #[trigger]
                read_at(run, r) && r < i ==> run.held[i] == run.held[r],
        },
        forall|r: int| #[trigger] read_at(run, r) && r < i ==> !(run.steps[i] is CreateDir) && !(
        run.steps[i] is Lock) && !(run.steps[i] is Read) && (run.steps[i] is Replace
            ==> run.held[i] == run.held[r]),
    decreases i,
{
    if i > 0 {
        law_a_save_keeps_the_newer(path, process, new, run, i - 1);
        assert(save_does(run.held[i - 1], run.steps[i - 1], run.events[i - 1], run.held[i]));
        if run.steps[i - 1] is Read {
            assert(read_at(run, i - 1));
        }
    }
}

/// Reads the outcome of removing the cache: one that is not there is no
/// failure.
pub fn clear(removed: Result<(), IoFailure>) -> (res: Result<(), IoFailure>)
    ensures
        match removed {
            Ok(()) => res is Ok,
            Err(e) => if e.kind == IoKind::NotFound {
                res is Ok
            } else {
                res == Err::<(), IoFailure>(e)
            },
        },
{
    match removed {
        Ok(()) => Ok(()),
        Err(e) => if e.kind == IoKind::NotFound {
            Ok(())
        } else {
            Err(e)
        },
    }
}

/// A launch within twelve hours, with the same roster, shows exactly the
/// snapshot that was saved last, except that its rows claim no attribution
/// generation.
pub proof fn law_a_launch_shows_what_was_saved(
    existing: Option<CacheModel>,
    snapshot: SnapshotModel,
    roster: Seq<Seq<u8>>,
    now: int,
)
    requires
        stored(existing, cache_entry(snapshot, roster)) == Some(cache_entry(snapshot, roster)),
        is_fresh(snapshot.fetched_at, now),
    ensures
        loaded(stored(existing, cache_entry(snapshot, roster)), now, roster) == Some(
            durable(snapshot),
        ),
        durable(snapshot).fetched_at == snapshot.fetched_at,
        durable(snapshot).rows.len() == snapshot.rows.len(),
        forall|i: int|
            0 <= i < snapshot.rows.len() ==> (#[trigger] durable(snapshot).rows[i]) == (RowModel {
                generation: None,
                ..snapshot.rows[i]
            }),
{
}

/// A launch never shows the data of another roster, nor data that is too old
/// or from the future.
pub proof fn law_a_launch_never_shows_stale_data(
    cached: Option<CacheModel>,
    now: int,
    roster: Seq<Seq<u8>>,
)
    ensures
        loaded(cached, now, roster) matches Some(s) ==> cached is Some && (cached->Some_0).roster
            == roster && s == (cached->Some_0).snapshot && 0 <= now - s.fetched_at <= MAX_AGE,
{
}

/// What the cache holds after some snapshots, saved in this order.
pub open spec fn stored_all(existing: Option<CacheModel>, saves: Seq<CacheModel>) -> Option<
    CacheModel,
>
    decreases saves.len(),
{
    if saves.len() == 0 {
        existing
    } else {
        stored(stored_all(existing, saves.drop_last()), saves.last())
    }
}

/// However the writes of several instances interleave, the cache ends with the
/// newest data among them.
pub proof fn law_the_cache_keeps_the_newest(existing: Option<CacheModel>, saves: Seq<CacheModel>)
    ensures
        forall|i: int|
            0 <= i < saves.len() ==> (stored_all(existing, saves) matches Some(c)
                && c.snapshot.fetched_at >= (#[trigger] saves[i]).snapshot.fetched_at),
        existing is Some ==> (stored_all(existing, saves) matches Some(c) && c.snapshot.fetched_at
            >= (existing->Some_0).snapshot.fetched_at),
        stored_all(existing, saves) == existing || exists|i: int|
            0 <= i < saves.len() && Some(#[trigger] saves[i]) == stored_all(existing, saves),
    decreases saves.len(),
{
    if saves.len() > 0 {
        let rest = saves.drop_last();
        law_the_cache_keeps_the_newest(existing, rest);
        assert forall|i: int| 0 <= i < rest.len() implies #[trigger] rest[i] == saves[i] by {}
        assert(saves[saves.len() - 1] == saves.last());
        assert forall|i: int| 0 <= i < saves.len() implies (stored_all(
            existing,
            saves,
        ) matches Some(c) && c.snapshot.fetched_at >= (
        #[trigger] saves[i]).snapshot.fetched_at) by {
            if i < rest.len() {
                assert(rest[i] == saves[i]);
            }
        }
        let before = stored_all(existing, rest);
        if stored_all(existing, saves) == before && before != existing {
            let i = choose|i: int| 0 <= i < rest.len() && Some(#[trigger] rest[i]) == before;
            assert(Some(saves[i]) == before);
        }
    }
}

/// Among data of the same time the first saved stays: what the cache ends with is
/// the first of the newest, counting what it held before as the first of all.
pub proof fn law_the_first_of_the_newest_stays(existing: Option<CacheModel>, saves: Seq<CacheModel>)
    requires
        existing is Some || saves.len() > 0,
    ensures
        exists|k: int| #[trigger]
            first_of_the_newest(all_saves(existing, saves), k) && stored_all(existing, saves)
                == Some(all_saves(existing, saves)[k]),
    decreases saves.len(),
{
    let all = all_saves(existing, saves);
    if saves.len() == 0 {
        assert(first_of_the_newest(all, 0));
    } else {
        let rest = saves.drop_last();
        let before = all_saves(existing, rest);
        let last = all.len() - 1;
        assert(all =~= before.push(saves.last()));
        if before.len() == 0 {
            assert(first_of_the_newest(all, 0));
        } else {
            law_the_first_of_the_newest_stays(existing, rest);
            let k = choose|k: int| #[trigger]
                first_of_the_newest(before, k) && stored_all(existing, rest) == Some(before[k]);
            assert forall|i: int| 0 <= i < before.len() implies #[trigger] all[i] == before[i] by {}
            assert(all[last] == saves.last());
            if before[k].snapshot.fetched_at >= saves.last().snapshot.fetched_at {
                assert(first_of_the_newest(all, k));
            } else {
                assert(first_of_the_newest(all, last)) by {
                    assert forall|i: int| 0 <= i < all.len() implies (
                    #[trigger] all[i]).snapshot.fetched_at <= all[last].snapshot.fetched_at by {
                        if i < last {
                            assert(all[i] == before[i]);
                        }
                    }
                    assert forall|i: int| 0 <= i < last implies (
                    #[trigger] all[i]).snapshot.fetched_at < all[last].snapshot.fetched_at by {
                        assert(all[i] == before[i]);
                    }
                }
            }
        }
    }
}

/// What the cache held before, and what was saved since, in order.
pub open spec fn all_saves(existing: Option<CacheModel>, saves: Seq<CacheModel>) -> Seq<
    CacheModel,
> {
    match existing {
        Some(e) => seq![e] + saves,
        None => saves,
    }
}

/// Whether an entry is as new as any, and newer than those before it.
pub open spec fn first_of_the_newest(entries: Seq<CacheModel>, k: int) -> bool {
    &&& 0 <= k < entries.len()
    &&& forall|i: int|
        0 <= i < entries.len() ==> (#[trigger] entries[i]).snapshot.fetched_at
            <= entries[k].snapshot.fetched_at
    &&& forall|i: int|
        0 <= i < k ==> (#[trigger] entries[i]).snapshot.fetched_at < entries[k].snapshot.fetched_at
}

/// A launch shows the cached snapshot exactly where there is one for the same
/// roster that is at most twelve hours old and not from the future, and shows it
/// as it is.
pub proof fn law_fresh_data_of_the_same_roster_is_shown(c: CacheModel, now: int, roster: Seq<Seq<u8>>)
    ensures
        ({
            let age = now - c.snapshot.fetched_at;
            let twelve_hours = 12int * 60 * 60 * 1_000_000_000;
            &&& c.roster == roster && 0 <= age <= twelve_hours ==> loaded(Some(c), now, roster)
                == Some(c.snapshot)
            &&& c.roster != roster || age < 0 || age > twelve_hours ==> loaded(
                Some(c),
                now,
                roster,
            ) is None
            &&& loaded(None, now, roster) is None
        }),
{
}

/// A save replaces what the cache holds exactly where its own snapshot is newer
/// or the cache is empty.
pub proof fn law_only_newer_data_replaces_the_cache(existing: CacheModel, new: CacheModel)
    ensures
        stored(None, new) == Some(new),
        new.snapshot.fetched_at > existing.snapshot.fetched_at ==> stored(Some(existing), new)
            == Some(new),
        new.snapshot.fetched_at <= existing.snapshot.fetched_at ==> stored(Some(existing), new)
            == Some(existing),
{
}

/// A save goes from the directory over the lock to reading and, where its data is
/// newer, to replacing; a step that fails ends it with that failure, and nothing
/// is read or written without the lock.
pub proof fn law_a_save_goes_on_only_after_success(
    path: Seq<u8>,
    process: nat,
    new: CacheModel,
    place: Seq<u8>,
    e: IoFailureModel,
)
    ensures
        ({
            let create = SaveStepModel::CreateDir { dir: place };
            let lock = SaveStepModel::Lock { file: lock_for(path) };
            let replace = SaveStepModel::Replace { entry: new, temp: place, path };
            let failed = SaveStepModel::Failed { failure: e };
            &&& save_start(path) is CreateDir || save_start(path) == lock
            &&& save_next(path, process, new, create, SaveEvent::DirCreated(Ok(()))) == lock
            &&& save_next(path, process, new, create, SaveEvent::DirCreated(Err(e))) == failed
            &&& save_next(path, process, new, lock, SaveEvent::Locked(Ok(()))) is Read
            &&& save_next(path, process, new, lock, SaveEvent::Locked(Err(e))) == failed
            &&& save_next(path, process, new, replace, SaveEvent::Replaced(Ok(()))) is Done
            &&& save_next(path, process, new, replace, SaveEvent::Replaced(Err(e))) == failed
        }),
{
}

/// The lock of a cache file is a file of its own beside it.
pub proof fn law_the_lock_is_a_file_of_its_own(path: Seq<u8>)
    ensures
        ({
            let name = shown_name(path) + ".lock"@;
            &&& name.len() == shown_name(path).len() + 5
            &&& shown_name(path).is_prefix_of(name)
            &&& lock_for(path) == beside(path, name)
        }),
        file_name_bytes(path) matches Some(bytes) ==> shown_name(path) == lossy_utf8(bytes),
{
    reveal_strlit(".lock");
    let name = shown_name(path) + ".lock"@;
    assert(name.take(shown_name(path).len() as int) =~= shown_name(path));
}

} // verus!
