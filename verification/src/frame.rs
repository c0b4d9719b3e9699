//! What is done in a frame, one action after the other.
//!
//! Each action is performed by whoever talks to the engine, which says whether it went
//! well; what follows is decided here.
use vstd::prelude::*;

verus! {

/// What is done next in a frame.
#[derive(Clone, Copy, Debug, PartialEq, Eq, Structural)]
pub enum Action {
    /// Look for the graphics device.
    FindDevice,
    /// Hand the vertices to a new lane.
    BuildLane,
    /// Set the lane up.
    InitLane,
    /// Look for the context of the frame.
    FindContext,
    /// Look for the target in that context.
    FindTarget,
    /// Record the draw. A draw that fails is reported, and the frame goes on.
    Record,
    /// Close the recording.
    Finish,
    /// Submit what was recorded.
    Submit,
    /// Nothing: the frame is over.
    Stop,
}

/// What lasts from frame to frame.
#[derive(Clone, Copy, Debug, PartialEq, Eq, Structural)]
pub struct Frames {
    /// How many frames were started.
    pub frames: u64,
    /// Whether the lane was built.
    pub built: bool,
    /// Whether the lane was set up.
    pub inited: bool,
}

/// What follows once the lane is there.
pub open spec fn after_built(inited: bool) -> Action {
    if inited {
        Action::FindContext
    } else {
        Action::InitLane
    }
}

impl Frames {
    /// What holds before the first frame.
    pub fn new() -> (r: Frames)
        ensures
            r == (Frames { frames: 0, built: false, inited: false }),
    {
        Frames { frames: 0, built: false, inited: false }
    }

    /// What follows an action.
    pub open spec fn follows(self, done: Action, ok: bool) -> Action {
        match done {
            Action::FindDevice => if !ok {
                Action::Stop
            } else if !self.built {
                Action::BuildLane
            } else {
                after_built(self.inited)
            },
            Action::BuildLane => after_built(self.inited),
            Action::InitLane => if ok {
                Action::FindContext
            } else {
                Action::Stop
            },
            Action::FindContext => if ok {
                Action::FindTarget
            } else {
                Action::Stop
            },
            Action::FindTarget => if ok {
                Action::Record
            } else {
                Action::Stop
            },
            Action::Record => Action::Finish,
            Action::Finish => if ok {
                Action::Submit
            } else {
                Action::Stop
            },
            Action::Submit => Action::Stop,
            Action::Stop => Action::Stop,
        }
    }

    /// What an action leaves behind.
    pub open spec fn after(self, done: Action, ok: bool) -> Frames {
        match done {
            Action::BuildLane => Frames { built: true, ..self },
            Action::InitLane => Frames { inited: self.inited || ok, ..self },
            _ => self,
        }
    }

    /// Starts a frame: it is counted, and the device is looked for.
    pub fn begin(&mut self) -> (r: Action)
        requires
            old(self).frames < u64::MAX,
        ensures
            *final(self) == (Frames { frames: (old(self).frames + 1) as u64, ..*old(self) }),
            r == Action::FindDevice,
    {
        self.frames = self.frames + 1;
        Action::FindDevice
    }

    /// Whether the progress of this frame is reported: only that of the first three is.
    pub fn verbose(&self) -> (r: bool)
        ensures
            r == (self.frames <= 3),
    {
        self.frames <= 3
    }

    /// Takes how an action went, and gives the next one.
    pub fn next(&mut self, done: Action, ok: bool) -> (r: Action)
        ensures
            *final(self) == old(self).after(done, ok),
            r == old(self).follows(done, ok),
    {
        match done {
            Action::FindDevice => if !ok {
                Action::Stop
            } else if !self.built {
                Action::BuildLane
            } else if self.inited {
                Action::FindContext
            } else {
                Action::InitLane
            },
            Action::BuildLane => {
                self.built = true;
                if self.inited {
                    Action::FindContext
                } else {
                    Action::InitLane
                }
            },
            Action::InitLane => if ok {
                self.inited = true;
                Action::FindContext
            } else {
                Action::Stop
            },
            Action::FindContext => if ok {
                Action::FindTarget
            } else {
                Action::Stop
            },
            Action::FindTarget => if ok {
                Action::Record
            } else {
                Action::Stop
            },
            Action::Record => Action::Finish,
            Action::Finish => if ok {
                Action::Submit
            } else {
                Action::Stop
            },
            Action::Submit => Action::Stop,
            Action::Stop => Action::Stop,
        }
    }

    /// The action after `n` others in a frame, where `goes(action)` says how each one goes.
    pub open spec fn nth_action(self, goes: spec_fn(Action) -> bool, n: nat) -> Action
        decreases n,
    {
        if n == 0 {
            Action::FindDevice
        } else {
            let done = self.nth_action(goes, (n - 1) as nat);
            self.after_actions(goes, (n - 1) as nat).follows(done, goes(done))
        }
    }

    /// What `n` actions of a frame leave behind.
    pub open spec fn after_actions(self, goes: spec_fn(Action) -> bool, n: nat) -> Frames
        decreases n,
    {
        if n == 0 {
            self
        } else {
            let done = self.nth_action(goes, (n - 1) as nat);
            self.after_actions(goes, (n - 1) as nat).after(done, goes(done))
        }
    }

    /// Whether a frame comes to an action.
    pub open spec fn performs(self, goes: spec_fn(Action) -> bool, action: Action) -> bool {
        exists|n: nat| n < 8 && #[trigger] self.nth_action(goes, n) == action
    }

    /// What a whole frame leaves behind.
    pub open spec fn after_frame(self, goes: spec_fn(Action) -> bool) -> Frames {
        self.after_actions(goes, 8)
    }
}

/// A frame is over after eight actions at most.
pub proof fn every_frame_ends(f: Frames, goes: spec_fn(Action) -> bool)
    ensures
        f.nth_action(goes, 8) == Action::Stop,
{
    reveal_with_fuel(Frames::nth_action, 9);
    reveal_with_fuel(Frames::after_actions, 9);
}

/// A frame submits a draw just where there is a device, a lane that is set up or can be,
/// a context and a target, and where the recording can be closed.
pub proof fn frame_submits_when_everything_is_there(f: Frames, goes: spec_fn(Action) -> bool)
    ensures
        f.performs(goes, Action::Submit) <==> goes(Action::FindDevice) && (f.inited || goes(
            Action::InitLane,
        )) && goes(Action::FindContext) && goes(Action::FindTarget) && goes(Action::Finish),
{
    reveal_with_fuel(Frames::nth_action, 9);
    reveal_with_fuel(Frames::after_actions, 9);
    assert(f.nth_action(goes, 5) == Action::Submit || f.nth_action(goes, 6) == Action::Submit
        || f.nth_action(goes, 7) == Action::Submit || !f.performs(goes, Action::Submit)) by {
        if f.performs(goes, Action::Submit) {
            let n = choose|n: nat| n < 8 && #[trigger] f.nth_action(goes, n) == Action::Submit;
            assert(n == 0 || n == 1 || n == 2 || n == 3 || n == 4 || n == 5 || n == 6 || n == 7);
        }
    }
}

/// A lane is built in the first frame that has a device, and never again.
pub proof fn lane_is_built_once(f: Frames, goes: spec_fn(Action) -> bool)
    ensures
        f.performs(goes, Action::BuildLane) <==> !f.built && goes(Action::FindDevice),
        f.after_frame(goes).built == (f.built || goes(Action::FindDevice)),
{
    reveal_with_fuel(Frames::nth_action, 9);
    reveal_with_fuel(Frames::after_actions, 9);
    if f.performs(goes, Action::BuildLane) {
        let n = choose|n: nat| n < 8 && #[trigger] f.nth_action(goes, n) == Action::BuildLane;
        assert(n == 0 || n == 1 || n == 2 || n == 3 || n == 4 || n == 5 || n == 6 || n == 7);
    }
    assert(!f.built && goes(Action::FindDevice) ==> f.nth_action(goes, 1) == Action::BuildLane);
}

/// A lane is set up in the first frame in which that goes well, and never again; until then
/// every frame with a device tries.
pub proof fn lane_is_set_up_once(f: Frames, goes: spec_fn(Action) -> bool)
    ensures
        f.performs(goes, Action::InitLane) <==> !f.inited && goes(Action::FindDevice),
        f.after_frame(goes).inited == (f.inited || goes(Action::FindDevice) && goes(
            Action::InitLane,
        )),
{
    reveal_with_fuel(Frames::nth_action, 9);
    reveal_with_fuel(Frames::after_actions, 9);
    if f.performs(goes, Action::InitLane) {
        let n = choose|n: nat| n < 8 && #[trigger] f.nth_action(goes, n) == Action::InitLane;
        assert(n == 0 || n == 1 || n == 2 || n == 3 || n == 4 || n == 5 || n == 6 || n == 7);
    }
    assert(!f.inited && goes(Action::FindDevice) ==> f.nth_action(goes, 1) == Action::InitLane
        || f.nth_action(goes, 2) == Action::InitLane);
}

/// Where an action stands in a frame.
pub open spec fn place_of(action: Action) -> nat {
    match action {
        Action::FindDevice => 0,
        Action::BuildLane => 1,
        Action::InitLane => 2,
        Action::FindContext => 3,
        Action::FindTarget => 4,
        Action::Record => 5,
        Action::Finish => 6,
        Action::Submit => 7,
        Action::Stop => 8,
    }
}

/// A frame starts with its device, and its actions come in their order, each once, until it
/// stops.
pub proof fn actions_come_in_order(f: Frames, goes: spec_fn(Action) -> bool, n: nat)
    ensures
        f.nth_action(goes, 0) == Action::FindDevice,
        f.nth_action(goes, n) != Action::Stop ==> place_of(f.nth_action(goes, n)) < place_of(
            f.nth_action(goes, n + 1),
        ),
        f.nth_action(goes, n) == Action::Stop ==> f.nth_action(goes, n + 1) == Action::Stop,
{
    lemma_set_up_comes_once(f, goes, n);
}

/// A lane that is not built or set up is so before anything is recorded with it.
proof fn lemma_set_up_comes_once(f: Frames, goes: spec_fn(Action) -> bool, n: nat)
    ensures
        ({
            let now = f.after_actions(goes, n);
            let action = f.nth_action(goes, n);
            &&& action == Action::BuildLane ==> !now.built
            &&& action == Action::InitLane ==> !now.inited
            &&& place_of(action) >= 2 && action != Action::Stop ==> now.built
            &&& place_of(action) >= 3 && action != Action::Stop ==> now.inited
        }),
    decreases n,
{
    if n > 0 {
        lemma_set_up_comes_once(f, goes, (n - 1) as nat);
    }
}

/// How far a frame gets: it looks for its context once there is a lane that is set up, for
/// its target once there is a context, and records and closes the recording, however the
/// draw goes, once there is a target.
#[verifier::spinoff_prover]
pub proof fn frame_goes_as_far_as_it_can(f: Frames, goes: spec_fn(Action) -> bool)
    ensures
        ({
            let lane = goes(Action::FindDevice) && (f.inited || goes(Action::InitLane));
            &&& f.performs(goes, Action::FindDevice)
            &&& f.performs(goes, Action::FindContext) <==> lane
            &&& f.performs(goes, Action::FindTarget) <==> lane && goes(Action::FindContext)
            &&& f.performs(goes, Action::Record) <==> lane && goes(Action::FindContext) && goes(
                Action::FindTarget,
            )
            &&& f.performs(goes, Action::Finish) <==> lane && goes(Action::FindContext) && goes(
                Action::FindTarget,
            )
        }),
{
    lemma_performs(f, goes, Action::FindDevice);
    lemma_performs(f, goes, Action::FindContext);
    lemma_performs(f, goes, Action::FindTarget);
    lemma_performs(f, goes, Action::Record);
    lemma_performs(f, goes, Action::Finish);
    reveal_with_fuel(Frames::nth_action, 9);
    reveal_with_fuel(Frames::after_actions, 9);
}

/// A frame comes to an action where one of its eight is that action.
proof fn lemma_performs(f: Frames, goes: spec_fn(Action) -> bool, action: Action)
    ensures
        f.performs(goes, action) <==> f.nth_action(goes, 0) == action || f.nth_action(goes, 1)
            == action || f.nth_action(goes, 2) == action || f.nth_action(goes, 3) == action
            || f.nth_action(goes, 4) == action || f.nth_action(goes, 5) == action || f.nth_action(
            goes,
            6,
        ) == action || f.nth_action(goes, 7) == action,
{
    if f.performs(goes, action) {
        let n = choose|n: nat| n < 8 && #[trigger] f.nth_action(goes, n) == action;
        assert(n == 0 || n == 1 || n == 2 || n == 3 || n == 4 || n == 5 || n == 6 || n == 7);
    }
}

/// A frame changes nothing that lasts but whether the lane is built and set up.
pub proof fn frame_keeps_its_count(f: Frames, goes: spec_fn(Action) -> bool, n: nat)
    ensures
        f.after_actions(goes, n).frames == f.frames,
        f.built ==> f.after_actions(goes, n).built,
        f.inited ==> f.after_actions(goes, n).inited,
    decreases n,
{
    if n > 0 {
        frame_keeps_its_count(f, goes, (n - 1) as nat);
    }
}

} // verus!
