//! Replacing a file as a whole: the new content is written to a sibling, and one
//! rename puts it in place.
use vstd::prelude::*;
use crate::disk::{at, Disk, Entry};
use crate::io::{io_result, IoFailure, IoFailureModel};
use crate::path::{components, FsPath};

verus! {

/// Where a replacement failed.
#[derive(Debug, Clone, Copy, PartialEq, Eq, Structural)]
pub enum ReplaceStage {
    Write,
    Rename,
}

/// What to do next to replace a file, or how it ended.
#[derive(Debug, PartialEq, Eq)]
pub enum ReplaceStep {
    /// Write the new content to the sibling.
    Write { temp: FsPath, path: FsPath },
    /// Rename the sibling to the file.
    Rename { temp: FsPath, path: FsPath },
    /// The file holds the new content.
    Done,
    /// The file holds the old content.
    Failed { stage: ReplaceStage, failure: IoFailure },
}

/// What a [`ReplaceStep`] holds.
pub enum ReplaceStepModel {
    Write { temp: Seq<u8>, path: Seq<u8> },
    Rename { temp: Seq<u8>, path: Seq<u8> },
    Done,
    Failed { stage: ReplaceStage, failure: IoFailureModel },
}

impl View for ReplaceStep {
    type V = ReplaceStepModel;

    open spec fn view(&self) -> ReplaceStepModel {
        match self {
            ReplaceStep::Write { temp, path } => ReplaceStepModel::Write {
                temp: temp@,
                path: path@,
            },
            ReplaceStep::Rename { temp, path } => ReplaceStepModel::Rename {
                temp: temp@,
                path: path@,
            },
            ReplaceStep::Done => ReplaceStepModel::Done,
            ReplaceStep::Failed { stage, failure } => ReplaceStepModel::Failed {
                stage: *stage,
                failure: failure@,
            },
        }
    }
}

/// What came of a step of a replacement.
pub enum ReplaceEvent {
    Written(Result<(), IoFailureModel>),
    Renamed(Result<(), IoFailureModel>),
}

/// The step after an outcome. An outcome of something else than what was
/// asked for changes nothing.
pub open spec fn replace_next(step: ReplaceStepModel, event: ReplaceEvent) -> ReplaceStepModel {
    match (step, event) {
        (ReplaceStepModel::Write { temp, path }, ReplaceEvent::Written(result)) => match result {
            Ok(_) => ReplaceStepModel::Rename { temp, path },
            Err(failure) => ReplaceStepModel::Failed { stage: ReplaceStage::Write, failure },
        },
        (ReplaceStepModel::Rename { .. }, ReplaceEvent::Renamed(result)) => match result {
            Ok(_) => ReplaceStepModel::Done,
            Err(failure) => ReplaceStepModel::Failed { stage: ReplaceStage::Rename, failure },
        },
        _ => step,
    }
}

/// Starts to replace a file through a sibling.
pub fn start_replace(path: &FsPath, temp: FsPath) -> (res: ReplaceStep)
    ensures
        res@ == (ReplaceStepModel::Write { temp: temp@, path: path@ }),
{
    ReplaceStep::Write { temp, path: path.clone() }
}

/// After writing the sibling.
pub fn replacement_written(temp: FsPath, path: FsPath, result: Result<(), IoFailure>) -> (res:
    ReplaceStep)
    ensures
        res@ == replace_next(
            ReplaceStepModel::Write { temp: temp@, path: path@ },
            ReplaceEvent::Written(io_result(result)),
        ),
{
    match result {
        Ok(()) => ReplaceStep::Rename { temp, path },
        Err(failure) => ReplaceStep::Failed { stage: ReplaceStage::Write, failure },
    }
}

/// After renaming the sibling.
pub fn replacement_renamed(result: Result<(), IoFailure>) -> (res: ReplaceStep)
    ensures
        forall|temp: Seq<u8>, path: Seq<u8>|
            res@ == #[trigger] replace_next(
                ReplaceStepModel::Rename { temp, path },
                ReplaceEvent::Renamed(io_result(result)),
            ),
{
    match result {
        Ok(()) => ReplaceStep::Done,
        Err(failure) => ReplaceStep::Failed { stage: ReplaceStage::Rename, failure },
    }
}

/// Whether `event` is what comes of a step of a replacement on `disk`, and
/// `after` is the disk then. A failed write may leave a part in the sibling.
pub open spec fn replace_does(
    disk: Disk,
    bytes: Seq<u8>,
    step: ReplaceStepModel,
    event: ReplaceEvent,
    after: Disk,
) -> bool {
    match (step, event) {
        (ReplaceStepModel::Write { temp, .. }, ReplaceEvent::Written(result)) => {
            &&& forall|place: Seq<Seq<u8>>|
                place != components(temp) ==> #[trigger] after.get(place) == disk.get(place)
            &&& result is Ok ==> at(after, temp) == Some(Entry::File(bytes))
        },
        (ReplaceStepModel::Rename { temp, path }, ReplaceEvent::Renamed(result)) => match result {
            Ok(_) => disk.contains_key(components(temp)) && after == disk.remove(
                components(temp),
            ).insert(components(path), disk[components(temp)]),
            Err(_) => after == disk,
        },
        _ => false,
    }
}

/// A replacement: its steps, what came of each, and the disk before each.
pub struct ReplaceRun {
    pub steps: Seq<ReplaceStepModel>,
    pub events: Seq<ReplaceEvent>,
    pub disks: Seq<Disk>,
}

/// Whether a replacement of a file by some bytes went like this.
pub open spec fn is_replacement(
    path: Seq<u8>,
    temp: Seq<u8>,
    bytes: Seq<u8>,
    run: ReplaceRun,
) -> bool {
    &&& run.steps.len() == run.events.len() + 1
    &&& run.disks.len() == run.steps.len()
    &&& run.steps[0] == (ReplaceStepModel::Write { temp, path })
    &&& forall|i: int|
        0 <= i < run.events.len() ==> {
            &&& replace_does(
                #[trigger] run.disks[i],
                bytes,
                run.steps[i],
                run.events[i],
                run.disks[i + 1],
            )
            &&& run.steps[i + 1] == replace_next(run.steps[i], run.events[i])
        }
}

/// A reader never sees a part of the new content: at every moment the file is as
/// it was, or holds all of it. Where the replacement succeeds it holds the new
/// content and no sibling is left; where it fails the file is as it was. Nothing
/// but the file and the sibling is touched.
pub proof fn law_a_file_is_replaced_as_a_whole(
    path: Seq<u8>,
    temp: Seq<u8>,
    bytes: Seq<u8>,
    run: ReplaceRun,
    i: int,
)
    requires
        is_replacement(path, temp, bytes, run),
        components(temp) != components(path),
        0 <= i < run.steps.len(),
    ensures
        ({
            let (start, now) = (run.disks[0], run.disks[i]);
            &&& at(now, path) == at(start, path) || at(now, path) == Some(Entry::File(bytes))
            &&& run.steps[i] is Done ==> at(now, path) == Some(Entry::File(bytes)) && at(
                now,
                temp,
            ) is None
            &&& !(run.steps[i] is Done) ==> at(now, path) == at(start, path)
            &&& forall|place: Seq<Seq<u8>>|
                place != components(path) && place != components(temp) ==> #[trigger] now.get(place)
                    == start.get(place)
            &&& match run.steps[i] {
                ReplaceStepModel::Write { temp: t, path: p } => i == 0 && t == temp && p == path,
                ReplaceStepModel::Rename { temp: t, path: p } => t == temp && p == path && at(
                    now,
                    temp,
                ) == Some(Entry::File(bytes)),
                _ => true,
            }
        }),
    decreases i,
{
    if i > 0 {
        law_a_file_is_replaced_as_a_whole(path, temp, bytes, run, i - 1);
        assert(replace_does(
            run.disks[i - 1],
            bytes,
            run.steps[i - 1],
            run.events[i - 1],
            run.disks[i],
        ));
        let (start, before, now) = (run.disks[0], run.disks[i - 1], run.disks[i]);
        assert(before.get(components(path)) == start.get(components(path)));
        match run.steps[i - 1] {
            ReplaceStepModel::Write { .. } => {
                assert(now.get(components(path)) == before.get(components(path)));
                assert forall|place: Seq<Seq<u8>>|
                    place != components(path) && place != components(temp) implies #[trigger] now.get(
                    place,
                ) == start.get(place) by {
                    assert(now.get(place) == before.get(place));
                }
            },
            ReplaceStepModel::Rename { .. } => {
                assert forall|place: Seq<Seq<u8>>|
                    place != components(path) && place != components(temp) implies #[trigger] now.get(
                    place,
                ) == start.get(place) by {
                    assert(before.get(place) == start.get(place));
                }
            },
            _ => {},
        }
    }
}

/// A replacement that meets no failure is done after the write and the rename;
/// a failure ends it and tells which of the two it was.
pub proof fn law_a_replacement_fails_where_a_step_did(
    temp: Seq<u8>,
    path: Seq<u8>,
    e: IoFailureModel,
)
    ensures
        ({
            let write = ReplaceStepModel::Write { temp, path };
            let rename = ReplaceStepModel::Rename { temp, path };
            &&& replace_next(write, ReplaceEvent::Written(Ok(()))) == rename
            &&& replace_next(rename, ReplaceEvent::Renamed(Ok(()))) is Done
            &&& replace_next(write, ReplaceEvent::Written(Err(e))) == (ReplaceStepModel::Failed {
                stage: ReplaceStage::Write,
                failure: e,
            })
            &&& replace_next(rename, ReplaceEvent::Renamed(Err(e))) == (ReplaceStepModel::Failed {
                stage: ReplaceStage::Rename,
                failure: e,
            })
        }),
{
}

} // verus!
