//! Failures of file-system operations, as plain values.
use vstd::prelude::*;

verus! {

/// The kinds of failure that the library tells apart.
#[derive(Debug, Clone, Copy, PartialEq, Eq, Structural)]
pub enum IoKind {
    /// The file or directory does not exist.
    NotFound,
    /// The file exists already.
    AlreadyExists,
    /// The operation would have had to wait.
    WouldBlock,
    /// Anything else.
    Other,
}

/// A failed file-system operation.
#[derive(Debug, PartialEq, Eq)]
pub struct IoFailure {
    pub kind: IoKind,
    pub message: String,
}

/// What an [`IoFailure`] holds.
pub struct IoFailureModel {
    pub kind: IoKind,
    pub message: Seq<char>,
}

impl View for IoFailure {
    type V = IoFailureModel;

    open spec fn view(&self) -> IoFailureModel {
        IoFailureModel { kind: self.kind, message: self.message@ }
    }
}

impl Clone for IoFailure {
    fn clone(&self) -> (res: IoFailure)
        ensures
            res@ == self@,
    {
        IoFailure { kind: self.kind, message: self.message.clone() }
    }
}

/// The failure of an operation, if it failed.
pub open spec fn io_result(r: Result<(), IoFailure>) -> Result<(), IoFailureModel> {
    match r {
        Ok(()) => Ok(()),
        Err(e) => Err(e@),
    }
}

/// The answer of an operation that tells yes from no, if it did not fail.
pub open spec fn io_answer(r: Result<bool, IoFailure>) -> Result<bool, IoFailureModel> {
    match r {
        Ok(b) => Ok(b),
        Err(e) => Err(e@),
    }
}

/// What an inspection of a path found.
#[derive(Debug, PartialEq, Eq)]
pub enum Probe {
    /// Something is there.
    Present,
    /// Nothing is there.
    Missing,
    /// It could not be inspected.
    Failed(IoFailure),
}

/// What a [`Probe`] holds.
pub enum ProbeModel {
    Present,
    Missing,
    Failed(IoFailureModel),
}

impl View for Probe {
    type V = ProbeModel;

    open spec fn view(&self) -> ProbeModel {
        match self {
            Probe::Present => ProbeModel::Present,
            Probe::Missing => ProbeModel::Missing,
            Probe::Failed(e) => ProbeModel::Failed(e@),
        }
    }
}

/// What inspecting a path tells of it.
pub open spec fn probe_of(inspected: Result<(), IoFailureModel>) -> ProbeModel {
    match inspected {
        Ok(()) => ProbeModel::Present,
        Err(e) => if e.kind == IoKind::NotFound {
            ProbeModel::Missing
        } else {
            ProbeModel::Failed(e)
        },
    }
}

/// A path is missing exactly where inspecting it says so: any other failure
/// leaves open what is there, and keeps its reason.
pub proof fn law_only_what_is_not_found_is_missing(inspected: Result<(), IoFailureModel>)
    ensures
        probe_of(inspected) is Present <==> inspected is Ok,
        probe_of(inspected) is Missing <==> (inspected matches Err(e) && e.kind
            == IoKind::NotFound),
        probe_of(inspected) matches ProbeModel::Failed(e) ==> inspected == Err::<
            (),
            IoFailureModel,
        >(e),
{
}

impl Probe {
    /// Reads the outcome of inspecting a path: one that is not found is
    /// missing.
    pub fn from_result(inspected: Result<(), IoFailure>) -> (res: Probe)
        ensures
            res@ == (match inspected {
                Ok(()) => ProbeModel::Present,
                Err(e) => if e.kind == IoKind::NotFound {
                    ProbeModel::Missing
                } else {
                    ProbeModel::Failed(e@)
                },
            }),
            res@ == probe_of(io_result(inspected)),
    {
        match inspected {
            Ok(()) => Probe::Present,
            Err(e) => if e.kind == IoKind::NotFound {
                Probe::Missing
            } else {
                Probe::Failed(e)
            },
        }
    }
}

/// The outcome of an operation is told as it was: a success as one, and a failure
/// with its kind and its message.
pub proof fn law_outcomes_are_told_as_they_were(
    done: Result<(), IoFailure>,
    answered: Result<bool, IoFailure>,
)
    ensures
        done is Ok <==> io_result(done) is Ok,
        done matches Err(e) ==> {
            &&& (io_result(done)->Err_0).kind == e.kind
            &&& (io_result(done)->Err_0).message == e.message@
        },
        answered matches Ok(b) ==> io_answer(answered) == Ok::<bool, IoFailureModel>(b),
        answered matches Err(e) ==> {
            &&& io_answer(answered) is Err
            &&& (io_answer(answered)->Err_0).kind == e.kind
            &&& (io_answer(answered)->Err_0).message == e.message@
        },
{
}

} // verus!
