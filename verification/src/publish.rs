//! Putting a new file in place without ever replacing one: the content is
//! written to a sibling, and the sibling is linked to the destination, which
//! fails where something is there already.
use vstd::prelude::*;
use vstd::string::*;
use vstd::utf8::*;
use crate::disk::{at, keeps, Disk, Entry};
use crate::io::{io_result, IoFailure, IoFailureModel, IoKind};
use crate::migration::{
    above, adds_dirs, adds_file, linked, migration_temp, publish_place, publish_result,
    settle_publish, temp_in, try_next_temp, PublishOutcome,
};
use crate::path::{components, file_name_bytes, lossy_utf8, parent_path, FsPath};

verus! {

/// Where a file is to be put: the directory, and the name as text.
#[derive(Debug, PartialEq, Eq)]
pub struct Place {
    destination: FsPath,
    parent: FsPath,
    name: String,
}

/// What a [`Place`] holds.
pub struct PlaceModel {
    pub destination: Seq<u8>,
    pub parent: Seq<u8>,
    pub name: Seq<char>,
}

impl View for Place {
    type V = PlaceModel;

    closed spec fn view(&self) -> PlaceModel {
        PlaceModel {
            destination: self.destination@,
            parent: self.parent@,
            name: self.name@,
        }
    }
}

impl Place {
    /// Where the file goes.
    pub fn destination(&self) -> (res: &FsPath)
        ensures
            res@ == self@.destination,
    {
        &self.destination
    }

    /// The directory that it goes to.
    pub fn parent(&self) -> (res: &FsPath)
        ensures
            res@ == self@.parent,
    {
        &self.parent
    }
}

/// What to do next to put a file in place, or how it ended.
#[derive(Debug, PartialEq, Eq)]
pub enum PublishStep {
    /// Create the directory.
    CreateDir { place: Place },
    /// Create the sibling, unless something is there.
    Reserve { place: Place, temp: FsPath },
    /// Write the content and the permissions to the sibling.
    Fill { place: Place, temp: FsPath },
    /// Link the sibling to the destination, unless something is there.
    Link { place: Place, temp: FsPath },
    /// Make the link last.
    SyncDir { place: Place, temp: FsPath },
    /// Remove the sibling.
    Remove { temp: FsPath, result: Result<PublishOutcome, IoFailure> },
    /// Nothing is left to do.
    Finished { result: Result<PublishOutcome, IoFailure> },
}

/// What a [`PublishStep`] holds.
pub enum PublishStepModel {
    CreateDir { place: PlaceModel },
    Reserve { place: PlaceModel, temp: Seq<u8> },
    Fill { place: PlaceModel, temp: Seq<u8> },
    Link { place: PlaceModel, temp: Seq<u8> },
    SyncDir { place: PlaceModel, temp: Seq<u8> },
    Remove { temp: Seq<u8>, result: Result<PublishOutcome, IoFailureModel> },
    Finished { result: Result<PublishOutcome, IoFailureModel> },
}

impl View for PublishStep {
    type V = PublishStepModel;

    open spec fn view(&self) -> PublishStepModel {
        match self {
            PublishStep::CreateDir { place } => PublishStepModel::CreateDir { place: place@ },
            PublishStep::Reserve { place, temp } => PublishStepModel::Reserve {
                place: place@,
                temp: temp@,
            },
            PublishStep::Fill { place, temp } => PublishStepModel::Fill {
                place: place@,
                temp: temp@,
            },
            PublishStep::Link { place, temp } => PublishStepModel::Link {
                place: place@,
                temp: temp@,
            },
            PublishStep::SyncDir { place, temp } => PublishStepModel::SyncDir {
                place: place@,
                temp: temp@,
            },
            PublishStep::Remove { temp, result } => PublishStepModel::Remove {
                temp: temp@,
                result: publish_result(*result),
            },
            PublishStep::Finished { result } => PublishStepModel::Finished {
                result: publish_result(*result),
            },
        }
    }
}

/// What came of a step. A process and a count name the next sibling to try.
pub enum PublishEvent {
    DirCreated { result: Result<(), IoFailureModel>, process: nat, count: nat },
    Reserved { result: Result<(), IoFailureModel>, process: nat, count: nat },
    Filled(Result<(), IoFailureModel>),
    Linked(Result<(), IoFailureModel>),
    DirSynced(Result<(), IoFailureModel>),
    Removed(Result<(), IoFailureModel>),
}

/// The first step: nothing for a destination without a directory or a name.
pub open spec fn publish_start(destination: Seq<u8>) -> PublishStepModel {
    match (parent_path(destination), file_name_bytes(destination)) {
        (Some(parent), Some(name)) if parent.len() > 0 => PublishStepModel::CreateDir {
            place: PlaceModel { destination, parent, name: lossy_utf8(name) },
        },
        (Some(parent), None) if parent.len() > 0 => PublishStepModel::Finished {
            result: Err(
                IoFailureModel { kind: IoKind::Other, message: "destination has no name"@ },
            ),
        },
        _ => PublishStepModel::Finished {
            result: Err(
                IoFailureModel { kind: IoKind::Other, message: "destination has no parent"@ },
            ),
        },
    }
}

/// The step after an outcome: a sibling that exists already is passed over, and
/// one that was created is always removed in the end. An outcome of something else
/// than what was asked for changes nothing.
pub open spec fn publish_next(step: PublishStepModel, event: PublishEvent) -> PublishStepModel {
    match (step, event) {
        (
            PublishStepModel::CreateDir { place },
            PublishEvent::DirCreated { result, process, count },
        ) => match result {
            Ok(_) => PublishStepModel::Reserve {
                place,
                temp: temp_in(place.parent, place.name, process, count),
            },
            Err(e) => PublishStepModel::Finished { result: Err(e) },
        },
        (
            PublishStepModel::Reserve { place, temp },
            PublishEvent::Reserved { result, process, count },
        ) => match result {
            Ok(_) => PublishStepModel::Fill { place, temp },
            Err(e) => if e.kind == IoKind::AlreadyExists {
                PublishStepModel::Reserve {
                    place,
                    temp: temp_in(place.parent, place.name, process, count),
                }
            } else {
                PublishStepModel::Finished { result: Err(e) }
            },
        },
        (PublishStepModel::Fill { place, temp }, PublishEvent::Filled(result)) => match result {
            Ok(_) => PublishStepModel::Link { place, temp },
            Err(e) => PublishStepModel::Remove { temp, result: Err(e) },
        },
        (PublishStepModel::Link { place, temp }, PublishEvent::Linked(result)) => match result {
            Ok(_) => PublishStepModel::SyncDir { place, temp },
            Err(e) => if e.kind == IoKind::AlreadyExists {
                PublishStepModel::Remove { temp, result: Ok(PublishOutcome::CanonicalWon) }
            } else {
                PublishStepModel::Remove { temp, result: Err(e) }
            },
        },
        (PublishStepModel::SyncDir { temp, .. }, PublishEvent::DirSynced(result)) => match result {
            Ok(_) => PublishStepModel::Remove { temp, result: Ok(PublishOutcome::Published) },
            Err(e) => PublishStepModel::Remove { temp, result: Err(e) },
        },
        (PublishStepModel::Remove { result, .. }, PublishEvent::Removed(cleanup)) => {
            PublishStepModel::Finished {
                result: match (result, cleanup) {
                    (Ok(_), Err(e)) if e.kind != IoKind::NotFound => Err(e),
                    _ => result,
                },
            }
        },
        _ => step,
    }
}

/// Starts to put a file in place.
pub fn publish_no_clobber(destination: &FsPath) -> (res: PublishStep)
    ensures
        res@ == publish_start(destination@),
{
    match publish_place(destination) {
        Ok((parent, name)) => PublishStep::CreateDir {
            place: Place { destination: destination.clone(), parent, name },
        },
        Err(e) => PublishStep::Finished { result: Err(e) },
    }
}

/// After creating the directory.
pub fn publish_dir_created(place: Place, result: Result<(), IoFailure>, process: u32, count: u64)
    -> (res: PublishStep)
    ensures
        res@ == publish_next(
            PublishStepModel::CreateDir { place: place@ },
            PublishEvent::DirCreated {
                result: io_result(result),
                process: process as nat,
                count: count as nat,
            },
        ),
{
    match result {
        Ok(()) => {
            let temp = migration_temp(&place.parent, place.name.as_str(), process, count);
            PublishStep::Reserve { place, temp }
        },
        Err(e) => PublishStep::Finished { result: Err(e) },
    }
}

/// After creating the sibling; the process and the count name the next one.
pub fn publish_reserved(
    place: Place,
    temp: FsPath,
    result: Result<(), IoFailure>,
    process: u32,
    count: u64,
) -> (res: PublishStep)
    ensures
        res@ == publish_next(
            PublishStepModel::Reserve { place: place@, temp: temp@ },
            PublishEvent::Reserved {
                result: io_result(result),
                process: process as nat,
                count: count as nat,
            },
        ),
{
    match result {
        Ok(()) => PublishStep::Fill { place, temp },
        Err(e) => if try_next_temp(&e) {
            let next = migration_temp(&place.parent, place.name.as_str(), process, count);
            PublishStep::Reserve { place, temp: next }
        } else {
            PublishStep::Finished { result: Err(e) }
        },
    }
}

/// After writing the sibling.
pub fn publish_filled(place: Place, temp: FsPath, result: Result<(), IoFailure>) -> (res:
    PublishStep)
    ensures
        res@ == publish_next(
            PublishStepModel::Fill { place: place@, temp: temp@ },
            PublishEvent::Filled(io_result(result)),
        ),
{
    match result {
        Ok(()) => PublishStep::Link { place, temp },
        Err(e) => PublishStep::Remove { temp, result: Err(e) },
    }
}

/// After linking the sibling to the destination.
pub fn publish_linked(place: Place, temp: FsPath, result: Result<(), IoFailure>) -> (res:
    PublishStep)
    ensures
        res@ == publish_next(
            PublishStepModel::Link { place: place@, temp: temp@ },
            PublishEvent::Linked(io_result(result)),
        ),
{
    match linked(result) {
        Ok(PublishOutcome::Published) => PublishStep::SyncDir { place, temp },
        Ok(PublishOutcome::CanonicalWon) => PublishStep::Remove {
            temp,
            result: Ok(PublishOutcome::CanonicalWon),
        },
        Err(e) => PublishStep::Remove { temp, result: Err(e) },
    }
}

/// After making the link last.
pub fn publish_synced(temp: FsPath, result: Result<(), IoFailure>) -> (res: PublishStep)
    ensures
        forall|place: PlaceModel|
            res@ == #[trigger] publish_next(
                PublishStepModel::SyncDir { place, temp: temp@ },
                PublishEvent::DirSynced(io_result(result)),
            ),
{
    match result {
        Ok(()) => PublishStep::Remove { temp, result: Ok(PublishOutcome::Published) },
        Err(e) => PublishStep::Remove { temp, result: Err(e) },
    }
}

/// After removing the sibling.
pub fn publish_cleaned(
    result: Result<PublishOutcome, IoFailure>,
    cleanup: Result<(), IoFailure>,
) -> (res: PublishStep)
    ensures
        forall|temp: Seq<u8>|
            res@ == #[trigger] publish_next(
                PublishStepModel::Remove { temp, result: publish_result(result) },
                PublishEvent::Removed(io_result(cleanup)),
            ),
{
    PublishStep::Finished { result: settle_publish(result, cleanup) }
}

/// Whether `event` is what comes of a step on `disk`, and `after` is the disk
/// then.
pub open spec fn publish_does(
    disk: Disk,
    bytes: Seq<u8>,
    step: PublishStepModel,
    event: PublishEvent,
    after: Disk,
) -> bool {
    match (step, event) {
        (PublishStepModel::CreateDir { place }, PublishEvent::DirCreated { .. }) => adds_dirs(
            disk,
            after,
            place.destination,
        ),
        (PublishStepModel::Reserve { temp, .. }, PublishEvent::Reserved { result, .. }) => {
            match result {
                Ok(_) => at(disk, temp) is None && after == disk.insert(
                    components(temp),
                    Entry::File(seq![]),
                ),
                Err(_) => after == disk,
            }
        },
        (PublishStepModel::Fill { temp, .. }, PublishEvent::Filled(result)) => {
            exists|content: Seq<u8>|
                after == #[trigger] disk.insert(components(temp), Entry::File(content)) && (
                result is Ok ==> content == bytes)
        },
        (PublishStepModel::Link { place, temp }, PublishEvent::Linked(result)) => match result {
            Ok(_) => at(disk, place.destination) is None && disk.contains_key(components(temp))
                && after == disk.insert(components(place.destination), disk[components(temp)]),
            Err(e) => after == disk && (e.kind == IoKind::AlreadyExists ==> at(
                disk,
                place.destination,
            ) is Some),
        },
        (PublishStepModel::SyncDir { .. }, PublishEvent::DirSynced(_)) => after == disk,
        (PublishStepModel::Remove { temp, .. }, PublishEvent::Removed(result)) => match result {
            Ok(_) => after == disk.remove(components(temp)),
            Err(e) => after == disk && (e.kind == IoKind::NotFound ==> at(disk, temp) is None),
        },
        _ => false,
    }
}

/// Putting a file in place: the steps, what came of each, and the disk before
/// each.
pub struct PublishRun {
    pub steps: Seq<PublishStepModel>,
    pub events: Seq<PublishEvent>,
    pub disks: Seq<Disk>,
}

/// Whether a step has no sibling, or one that is not the destination.
pub open spec fn sibling_apart(destination: Seq<u8>, step: PublishStepModel) -> bool {
    match step {
        PublishStepModel::Reserve { temp, .. } => components(temp) != components(destination),
        _ => true,
    }
}

/// Whether putting a file in place went like this, with no one else at the
/// directory.
pub open spec fn is_publishing(destination: Seq<u8>, bytes: Seq<u8>, run: PublishRun) -> bool {
    &&& run.steps.len() == run.events.len() + 1
    &&& run.disks.len() == run.steps.len()
    &&& run.steps[0] == publish_start(destination)
    &&& forall|i: int|
        0 <= i < run.events.len() ==> {
            &&& publish_does(
                #[trigger] run.disks[i],
                bytes,
                run.steps[i],
                run.events[i],
                run.disks[i + 1],
            )
            &&& run.steps[i + 1] == publish_next(run.steps[i], run.events[i])
            &&& sibling_apart(destination, run.steps[i + 1])
        }
}

/// What is new on a disk: directories above the destination, and what is allowed
/// at two more places.
spec fn only_new(
    start: Disk,
    now: Disk,
    destination: Seq<u8>,
    sibling: bool,
    temp: Seq<u8>,
    file: bool,
) -> bool {
    &&& keeps(start, now)
    &&& forall|p: Seq<Seq<u8>>| #[trigger]
        now.contains_key(p) && !start.contains_key(p) ==> {
            ||| now[p] is Dir && above(p, destination)
            ||| sibling && p == components(temp)
            ||| file && p == components(destination)
        }
}

spec fn publishing_so_far(
    d: Seq<u8>,
    bytes: Seq<u8>,
    start: Disk,
    step: PublishStepModel,
    now: Disk,
) -> bool {
    match step {
        PublishStepModel::CreateDir { place } => now == start && place.destination == d,
        PublishStepModel::Reserve { place, temp } => place.destination == d && components(temp)
            != components(d) && only_new(start, now, d, false, temp, false),
        PublishStepModel::Fill { place, temp } => {
            &&& place.destination == d && components(temp) != components(d)
            &&& at(start, temp) is None
            &&& at(now, temp) is Some
            &&& only_new(start, now, d, true, temp, false)
        },
        PublishStepModel::Link { place, temp } => {
            &&& place.destination == d && components(temp) != components(d)
            &&& at(start, temp) is None
            &&& at(now, temp) == Some(Entry::File(bytes))
            &&& only_new(start, now, d, true, temp, false)
        },
        PublishStepModel::SyncDir { place, temp } => {
            &&& place.destination == d && components(temp) != components(d)
            &&& at(start, temp) is None
            &&& at(start, d) is None
            &&& at(now, d) == Some(Entry::File(bytes))
            &&& only_new(start, now, d, true, temp, true)
        },
        PublishStepModel::Remove { temp, result } => {
            &&& components(temp) != components(d)
            &&& at(start, temp) is None
            &&& match result {
                Ok(PublishOutcome::Published) => at(start, d) is None && at(now, d) == Some(
                    Entry::File(bytes),
                ) && only_new(start, now, d, true, temp, true),
                Ok(PublishOutcome::CanonicalWon) => at(now, d) is Some && only_new(
                    start,
                    now,
                    d,
                    true,
                    temp,
                    false,
                ),
                Err(_) => keeps(start, now),
            }
        },
        PublishStepModel::Finished { result } => match result {
            Ok(PublishOutcome::Published) => adds_file(start, now, d, bytes),
            Ok(PublishOutcome::CanonicalWon) => at(now, d) is Some && adds_dirs(start, now, d),
            Err(_) => keeps(start, now),
        },
    }
}

/// Putting a file in place replaces nothing. Where it succeeds, what is new is
/// the file with all of its content, and directories above it; the sibling is
/// gone. Where something was at the destination first, that stays and only
/// directories can be new. Where it fails, all that was there is as it was.
pub proof fn law_publishing_replaces_nothing(
    destination: Seq<u8>,
    bytes: Seq<u8>,
    run: PublishRun,
)
    requires
        is_publishing(destination, bytes, run),
    ensures
        run.steps.last() matches PublishStepModel::Finished { result } ==> match result {
            Ok(PublishOutcome::Published) => adds_file(
                run.disks[0],
                run.disks.last(),
                destination,
                bytes,
            ),
            Ok(PublishOutcome::CanonicalWon) => at(run.disks.last(), destination) is Some
                && adds_dirs(run.disks[0], run.disks.last(), destination),
            Err(_) => keeps(run.disks[0], run.disks.last()),
        },
{
    lemma_publishing(destination, bytes, run, run.steps.len() - 1);
}

proof fn lemma_publishing(destination: Seq<u8>, bytes: Seq<u8>, run: PublishRun, i: int)
    requires
        is_publishing(destination, bytes, run),
        0 <= i < run.steps.len(),
    ensures
        publishing_so_far(destination, bytes, run.disks[0], run.steps[i], run.disks[i]),
    decreases i,
{
    if i == 0 {
        assert(keeps(run.disks[0], run.disks[0]));
    } else {
        let k = i - 1;
        lemma_publishing(destination, bytes, run, k);
        let (d, start, disk, now) = (destination, run.disks[0], run.disks[k], run.disks[i]);
        let (step, event) = (run.steps[k], run.events[k]);
        assert(publish_does(disk, bytes, step, event, now));
        match step {
            PublishStepModel::CreateDir { .. } => {
                lemma_after_dir(d, bytes, start, disk, step, event, now);
            },
            PublishStepModel::Reserve { .. } => {
                lemma_after_reserve(d, bytes, start, disk, step, event, now);
            },
            PublishStepModel::Fill { .. } => {
                lemma_after_fill(d, bytes, start, disk, step, event, now);
            },
            PublishStepModel::Link { .. } => {
                lemma_after_link(d, bytes, start, disk, step, event, now);
            },
            PublishStepModel::SyncDir { .. } => {
                lemma_after_sync(d, bytes, start, disk, step, event, now);
            },
            PublishStepModel::Remove { .. } => {
                lemma_after_remove(d, bytes, start, disk, step, event, now);
            },
            PublishStepModel::Finished { .. } => {},
        }
    }
}

proof fn lemma_after_dir(
    d: Seq<u8>,
    bytes: Seq<u8>,
    start: Disk,
    disk: Disk,
    step: PublishStepModel,
    event: PublishEvent,
    now: Disk,
)
    requires
        step is CreateDir,
        publishing_so_far(d, bytes, start, step, disk),
        publish_does(disk, bytes, step, event, now),
        sibling_apart(d, publish_next(step, event)),
    ensures
        publishing_so_far(d, bytes, start, publish_next(step, event), now),
{
}

proof fn lemma_after_reserve(
    d: Seq<u8>,
    bytes: Seq<u8>,
    start: Disk,
    disk: Disk,
    step: PublishStepModel,
    event: PublishEvent,
    now: Disk,
)
    requires
        step is Reserve,
        publishing_so_far(d, bytes, start, step, disk),
        publish_does(disk, bytes, step, event, now),
        sibling_apart(d, publish_next(step, event)),
    ensures
        publishing_so_far(d, bytes, start, publish_next(step, event), now),
{
    let temp = components(step->Reserve_temp);
    assert(start.contains_key(temp) ==> disk.get(temp) == start.get(temp));
    if event->Reserved_result is Ok {
        assert forall|p: Seq<Seq<u8>>| p != temp implies #[trigger] now.get(p) == disk.get(p) by {}
        lemma_with(start, disk, now, temp);
    }
}

proof fn lemma_after_fill(
    d: Seq<u8>,
    bytes: Seq<u8>,
    start: Disk,
    disk: Disk,
    step: PublishStepModel,
    event: PublishEvent,
    now: Disk,
)
    requires
        step is Fill,
        publishing_so_far(d, bytes, start, step, disk),
        publish_does(disk, bytes, step, event, now),
        sibling_apart(d, publish_next(step, event)),
    ensures
        publishing_so_far(d, bytes, start, publish_next(step, event), now),
{
    let temp = components(step->Fill_temp);
    assert forall|p: Seq<Seq<u8>>| p != temp implies #[trigger] now.get(p) == disk.get(p) by {}
    lemma_with(start, disk, now, temp);
}

proof fn lemma_after_link(
    d: Seq<u8>,
    bytes: Seq<u8>,
    start: Disk,
    disk: Disk,
    step: PublishStepModel,
    event: PublishEvent,
    now: Disk,
)
    requires
        step is Link,
        publishing_so_far(d, bytes, start, step, disk),
        publish_does(disk, bytes, step, event, now),
        sibling_apart(d, publish_next(step, event)),
    ensures
        publishing_so_far(d, bytes, start, publish_next(step, event), now),
{
    let place = components(d);
    assert(start.contains_key(place) ==> disk.get(place) == start.get(place));
    if event->Linked_0 is Ok {
        assert forall|p: Seq<Seq<u8>>| p != place implies #[trigger] now.get(p) == disk.get(p) by {}
        lemma_with(start, disk, now, place);
    }
}

proof fn lemma_after_sync(
    d: Seq<u8>,
    bytes: Seq<u8>,
    start: Disk,
    disk: Disk,
    step: PublishStepModel,
    event: PublishEvent,
    now: Disk,
)
    requires
        step is SyncDir,
        publishing_so_far(d, bytes, start, step, disk),
        publish_does(disk, bytes, step, event, now),
        sibling_apart(d, publish_next(step, event)),
    ensures
        publishing_so_far(d, bytes, start, publish_next(step, event), now),
{
}

proof fn lemma_after_remove(
    d: Seq<u8>,
    bytes: Seq<u8>,
    start: Disk,
    disk: Disk,
    step: PublishStepModel,
    event: PublishEvent,
    now: Disk,
)
    requires
        step is Remove,
        publishing_so_far(d, bytes, start, step, disk),
        publish_does(disk, bytes, step, event, now),
        sibling_apart(d, publish_next(step, event)),
    ensures
        publishing_so_far(d, bytes, start, publish_next(step, event), now),
{
    let temp = components(step->Remove_temp);
    assert forall|p: Seq<Seq<u8>>| p != temp implies #[trigger] now.get(p) == disk.get(p) by {}
    lemma_with(start, disk, now, temp);
}

proof fn lemma_with(start: Disk, disk: Disk, now: Disk, place: Seq<Seq<u8>>)
    requires
        keeps(start, disk),
        !start.contains_key(place),
        forall|p: Seq<Seq<u8>>| p != place ==> #[trigger] now.get(p) == disk.get(p),
    ensures
        keeps(start, now),
        forall|p: Seq<Seq<u8>>| #[trigger]
            now.contains_key(p) && p != place ==> disk.contains_key(p) && now[p] == disk[p],
{
    assert forall|p: Seq<Seq<u8>>| #[trigger] start.contains_key(p) implies now.get(p)
        == start.get(p) by {
        assert(disk.get(p) == start.get(p));
        assert(now.get(p) == disk.get(p));
    }
    assert forall|p: Seq<Seq<u8>>| #[trigger]
        now.contains_key(p) && p != place implies disk.contains_key(p) && now[p] == disk[p] by {
        assert(now.get(p) == disk.get(p));
    }
}

/// The result of putting a file in place: it is published where every step
/// succeeds. Where a sibling's name is taken, the next one is tried. Something
/// that was at the destination first is no failure. Any other failing step
/// is the result, after the sibling was removed; and a sibling that cannot be
/// removed is a failure too, but hides none that came before.
pub proof fn law_publishing_ends_with_its_first_failure(
    place: PlaceModel,
    temp: Seq<u8>,
    e: IoFailureModel,
    before: IoFailureModel,
    outcome: PublishOutcome,
    process: nat,
    count: nat,
)
    ensures
        publish_next(
            PublishStepModel::CreateDir { place },
            PublishEvent::DirCreated { result: Ok(()), process, count },
        ) == (PublishStepModel::Reserve {
            place,
            temp: temp_in(place.parent, place.name, process, count),
        }),
        publish_next(
            PublishStepModel::CreateDir { place },
            PublishEvent::DirCreated { result: Err(e), process, count },
        ) == (PublishStepModel::Finished { result: Err(e) }),
        publish_next(
            PublishStepModel::Reserve { place, temp },
            PublishEvent::Reserved { result: Ok(()), process, count },
        ) == (PublishStepModel::Fill { place, temp }),
        publish_next(
            PublishStepModel::Reserve { place, temp },
            PublishEvent::Reserved { result: Err(e), process, count },
        ) == if e.kind == IoKind::AlreadyExists {
            PublishStepModel::Reserve {
                place,
                temp: temp_in(place.parent, place.name, process, count),
            }
        } else {
            PublishStepModel::Finished { result: Err(e) }
        },
        publish_next(
            PublishStepModel::Fill { place, temp },
            PublishEvent::Filled(Ok(())),
        ) == (PublishStepModel::Link { place, temp }),
        publish_next(
            PublishStepModel::Link { place, temp },
            PublishEvent::Linked(Ok(())),
        ) == (PublishStepModel::SyncDir { place, temp }),
        publish_next(
            PublishStepModel::SyncDir { place, temp },
            PublishEvent::DirSynced(Ok(())),
        ) == (PublishStepModel::Remove { temp, result: Ok(PublishOutcome::Published) }),
        publish_next(
            PublishStepModel::Fill { place, temp },
            PublishEvent::Filled(Err(e)),
        ) == (PublishStepModel::Remove { temp, result: Err(e) }),
        publish_next(
            PublishStepModel::Link { place, temp },
            PublishEvent::Linked(Err(e)),
        ) == (PublishStepModel::Remove {
            temp,
            result: if e.kind == IoKind::AlreadyExists {
                Ok(PublishOutcome::CanonicalWon)
            } else {
                Err(e)
            },
        }),
        publish_next(
            PublishStepModel::SyncDir { place, temp },
            PublishEvent::DirSynced(Err(e)),
        ) == (PublishStepModel::Remove { temp, result: Err(e) }),
        publish_next(
            PublishStepModel::Remove { temp, result: Ok(outcome) },
            PublishEvent::Removed(Ok(())),
        ) == (PublishStepModel::Finished { result: Ok(outcome) }),
        publish_next(
            PublishStepModel::Remove { temp, result: Ok(outcome) },
            PublishEvent::Removed(Err(e)),
        ) == (PublishStepModel::Finished {
            result: if e.kind == IoKind::NotFound {
                Ok(outcome)
            } else {
                Err(e)
            },
        }),
        publish_next(
            PublishStepModel::Remove { temp, result: Err(before) },
            PublishEvent::Removed(Err(e)),
        ) == (PublishStepModel::Finished { result: Err(before) }),
        publish_next(
            PublishStepModel::Remove { temp, result: Err(before) },
            PublishEvent::Removed(Ok(())),
        ) == (PublishStepModel::Finished { result: Err(before) }),
{
}

/// Putting a file in place starts with its directory, unless the destination has
/// no directory or no name: then it ends at once, with a failure that says which.
pub proof fn law_a_destination_needs_directory_and_name(destination: Seq<u8>)
    ensures
        ({
            let start = publish_start(destination);
            let placed = parent_path(destination) matches Some(dir) && dir.len() > 0;
            let named = file_name_bytes(destination) is Some;
            &&& start is CreateDir <==> placed && named
            &&& start matches PublishStepModel::CreateDir { place } ==> place.destination
                == destination && Some(place.parent) == parent_path(destination)
            &&& !placed ==> (start matches PublishStepModel::Finished { result: Err(e) } && e.message
                == "destination has no parent"@)
            &&& placed && !named ==> (start matches PublishStepModel::Finished { result: Err(e) }
                && e.message == "destination has no name"@)
        }),
{
}

} // verus!
