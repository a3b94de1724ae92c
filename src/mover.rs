//! The decisions of one move: create the destination's parent, rename, and
//! when the rename crosses devices, copy then remove the source.

use vstd::prelude::*;

verus! {

/// Where one move stands: the filesystem operation to perform next, or
/// its result.
#[derive(PartialEq, Eq, Structural, Clone, Copy, Debug)]
pub enum MoveStep {
    /// Create every missing directory above the destination.
    EnsureParent,
    /// Rename the source to the destination.
    Rename,
    /// Copy the source to the destination (after a cross-device rename).
    Copy,
    /// Remove the source (after a successful copy).
    RemoveSource,
    /// Finished: whether the file was moved.
    Done(bool),
}

/// What the last filesystem operation reported.
#[derive(PartialEq, Eq, Structural, Clone, Copy, Debug)]
pub enum MoveEvent {
    Succeeded,
    /// The rename failed because source and destination are on different
    /// filesystems or devices.
    CrossesDevices,
    Failed,
}

/// The step that follows `step` once its operation reported `event`.
pub open spec fn transition(step: MoveStep, event: MoveEvent) -> MoveStep {
    match step {
        MoveStep::EnsureParent => if event == MoveEvent::Succeeded {
            MoveStep::Rename
        } else {
            MoveStep::Done(false)
        },
        MoveStep::Rename => match event {
            MoveEvent::Succeeded => MoveStep::Done(true),
            MoveEvent::CrossesDevices => MoveStep::Copy,
            MoveEvent::Failed => MoveStep::Done(false),
        },
        MoveStep::Copy => if event == MoveEvent::Succeeded {
            MoveStep::RemoveSource
        } else {
            MoveStep::Done(false)
        },
        MoveStep::RemoveSource => MoveStep::Done(event == MoveEvent::Succeeded),
        MoveStep::Done(moved) => MoveStep::Done(moved),
    }
}

/// How many operations a move may still perform, at most.
pub open spec fn remaining(step: MoveStep) -> nat {
    match step {
        MoveStep::EnsureParent => 4,
        MoveStep::Rename => 3,
        MoveStep::Copy => 2,
        MoveStep::RemoveSource => 1,
        MoveStep::Done(_) => 0,
    }
}

/// The step reached from `step` through `events`, in order.
pub open spec fn run(step: MoveStep, events: Seq<MoveEvent>) -> MoveStep
    decreases events.len(),
{
    if events.len() == 0 {
        step
    } else {
        run(transition(step, events[0]), events.drop_first())
    }
}

impl MoveStep {
    /// Every move starts by making sure the destination's parent exists.
    pub fn start() -> (r: MoveStep)
        ensures
            r == MoveStep::EnsureParent,
    {
        MoveStep::EnsureParent
    }

    /// The result of the move, once it is finished.
    pub fn outcome(&self) -> (r: Option<bool>)
        ensures
            r == match *self {
                MoveStep::Done(moved) => Some(moved),
                _ => None::<bool>,
            },
    {
        match self {
            MoveStep::Done(moved) => Some(*moved),
            _ => None,
        }
    }

    /// The step that follows once this one's operation reported `event`.
    /// An unfinished move always gets closer to its end.
    pub fn next(self, event: MoveEvent) -> (r: MoveStep)
        ensures
            r == transition(self, event),
            !(self is Done) ==> remaining(r) < remaining(self),
    {
        match self {
            MoveStep::EnsureParent => match event {
                MoveEvent::Succeeded => MoveStep::Rename,
                _ => MoveStep::Done(false),
            },
            MoveStep::Rename => match event {
                MoveEvent::Succeeded => MoveStep::Done(true),
                MoveEvent::CrossesDevices => MoveStep::Copy,
                MoveEvent::Failed => MoveStep::Done(false),
            },
            MoveStep::Copy => match event {
                MoveEvent::Succeeded => MoveStep::RemoveSource,
                _ => MoveStep::Done(false),
            },
            MoveStep::RemoveSource => match event {
                MoveEvent::Succeeded => MoveStep::Done(true),
                _ => MoveStep::Done(false),
            },
            MoveStep::Done(moved) => MoveStep::Done(moved),
        }
    }
}

/// A rename that crosses devices falls back to copy then remove: the move
/// succeeds exactly when both succeed, and a finished move stays finished.
pub proof fn lemma_cross_device_fallback(copy: MoveEvent, remove: MoveEvent)
    ensures
        run(MoveStep::EnsureParent, seq![MoveEvent::Succeeded, MoveEvent::CrossesDevices])
            == MoveStep::Copy,
        run(MoveStep::Copy, seq![copy, remove]) == MoveStep::Done(
            copy == MoveEvent::Succeeded && remove == MoveEvent::Succeeded,
        ),
{
    reveal_with_fuel(run, 3);
    let s = seq![MoveEvent::Succeeded, MoveEvent::CrossesDevices];
    assert(s.drop_first().drop_first() =~= Seq::<MoveEvent>::empty());
    let t = seq![copy, remove];
    assert(t.drop_first().drop_first() =~= Seq::<MoveEvent>::empty());
    assert(t.drop_first()[0] == remove);
}

/// A failure to create the destination's parent ends that move as an
/// error, before anything is renamed.
pub proof fn lemma_parent_failure(event: MoveEvent, rest: Seq<MoveEvent>)
    requires
        event != MoveEvent::Succeeded,
    ensures
        run(MoveStep::EnsureParent, seq![event] + rest) == MoveStep::Done(false),
    decreases rest.len(),
{
    lemma_done_stays(false, rest);
    assert((seq![event] + rest).drop_first() =~= rest);
}

/// A finished move does not change, whatever is reported after.
pub proof fn lemma_done_stays(moved: bool, events: Seq<MoveEvent>)
    ensures
        run(MoveStep::Done(moved), events) == MoveStep::Done(moved),
    decreases events.len(),
{
    if events.len() > 0 {
        lemma_done_stays(moved, events.drop_first());
    }
}

} // verus!
