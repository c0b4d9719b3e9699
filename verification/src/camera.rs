//! The camera that orbits the avatar.
use vstd::prelude::*;

use crate::scalar::{
    clamp_bits, clamped, is_nan, less, less_bits, nan_bits, rank, ZERO,
};

verus! {

/// The distance that the camera must keep at least, `0.05`; it must be exceeded.
pub const NEAREST: u32 = 0x3d4c_cccd;

/// The distance of the camera where none is given, `0.535`.
pub const USUAL_DISTANCE: u32 = 0x3f08_f5c3;

/// The greatest part of the avatar's height that the camera may look at, `1.5`.
pub const HIGHEST: u32 = 0x3fc0_0000;

/// The part of the avatar's height that the camera looks at where none is given, `0.92`.
pub const USUAL_HEIGHT: u32 = 0x3f6b_851f;

/// The greatest pitch, `1.4`.
pub const PITCH_UP: u32 = 0x3fb3_3333;

/// The least pitch, `-1.4`.
pub const PITCH_DOWN: u32 = 0xbfb3_3333;

/// A given distance where it is great enough, else the usual one.
pub open spec fn distance_of(given: Option<u32>) -> u32 {
    match given {
        Some(d) => if less(NEAREST, d) {
            d
        } else {
            USUAL_DISTANCE
        },
        None => USUAL_DISTANCE,
    }
}

/// Settles the distance of the camera.
pub fn camera_distance(given: Option<u32>) -> (r: u32)
    ensures
        r == distance_of(given),
{
    match given {
        Some(d) => if less_bits(NEAREST, d) {
            d
        } else {
            USUAL_DISTANCE
        },
        None => USUAL_DISTANCE,
    }
}

/// A given part of the height where it lies from zero to [`HIGHEST`], else the usual one.
pub open spec fn height_of(given: Option<u32>) -> u32 {
    match given {
        Some(f) => if !is_nan(f) && !less(f, ZERO) && !less(HIGHEST, f) {
            f
        } else {
            USUAL_HEIGHT
        },
        None => USUAL_HEIGHT,
    }
}

/// Settles the part of the avatar's height that the camera looks at.
pub fn camera_height(given: Option<u32>) -> (r: u32)
    ensures
        r == height_of(given),
{
    match given {
        Some(f) => if !nan_bits(f) && !less_bits(f, ZERO) && !less_bits(HIGHEST, f) {
            f
        } else {
            USUAL_HEIGHT
        },
        None => USUAL_HEIGHT,
    }
}

/// The camera keeps its distance and looks at the avatar, whatever is given.
pub proof fn settled_camera_is_in_range(distance: Option<u32>, height: Option<u32>)
    ensures
        less(NEAREST, distance_of(distance)),
        rank(ZERO) <= rank(height_of(height)) <= rank(HIGHEST),
        !is_nan(height_of(height)),
{
}

/// A pitch that does not turn over.
pub open spec fn limited(pitch: u32) -> u32 {
    clamped(pitch, PITCH_DOWN, PITCH_UP)
}

/// Keeps a pitch from turning over.
pub fn limit_pitch(pitch: u32) -> (r: u32)
    ensures
        r == clamped(pitch, PITCH_DOWN, PITCH_UP),
        r == limited(pitch),
        !is_nan(pitch) ==> rank(PITCH_DOWN) <= rank(r) <= rank(PITCH_UP),
{
    clamp_bits(pitch, PITCH_DOWN, PITCH_UP)
}

/// The width and height of a window that has an area.
pub open spec fn sides_of(width: u32, height: u32) -> Option<(u32, u32)> {
    if width > 0 && height > 0 {
        Some((width, height))
    } else {
        None
    }
}

/// The width and height whose ratio the projection takes from now on; `None` where a window
/// without an area leaves the ratio as it was.
pub fn aspect_source(width: u32, height: u32) -> (r: Option<(u32, u32)>)
    ensures
        r == sides_of(width, height),
        r == (if width > 0 && height > 0 {
            Some((width, height))
        } else {
            None
        }),
{
    if width > 0 && height > 0 {
        Some((width, height))
    } else {
        None
    }
}

/// What a user does with the pointer.
#[derive(Clone, Copy, Debug, PartialEq, Eq, Structural)]
pub enum Input {
    LeftPressed,
    LeftReleased,
    /// The pointer is at this place now.
    Moved { x: u32, y: u32 },
    Other,
}

/// A stretch that the pointer was dragged.
#[derive(Clone, Copy, Debug, PartialEq, Eq, Structural)]
pub struct Drag {
    pub from_x: u32,
    pub from_y: u32,
    pub to_x: u32,
    pub to_y: u32,
}

/// The pointer: whether it is dragging, and where it was last.
#[derive(Clone, Copy, Debug, PartialEq, Eq, Structural)]
pub struct Pointer {
    pub dragging: bool,
    pub last_x: u32,
    pub last_y: u32,
}

impl Pointer {
    /// The pointer after one input.
    pub open spec fn after(self, input: Input) -> Pointer {
        match input {
            Input::LeftPressed => Pointer { dragging: true, ..self },
            Input::LeftReleased => Pointer { dragging: false, ..self },
            Input::Moved { x, y } => Pointer { last_x: x, last_y: y, ..self },
            Input::Other => self,
        }
    }

    /// The stretch that one input drags.
    pub open spec fn dragged(self, input: Input) -> Option<Drag> {
        match input {
            Input::Moved { x, y } => if self.dragging {
                Some(Drag { from_x: self.last_x, from_y: self.last_y, to_x: x, to_y: y })
            } else {
                None
            },
            _ => None,
        }
    }

    /// The pointer after the first `n` inputs.
    pub open spec fn after_all(self, inputs: Seq<Input>, n: nat) -> Pointer
        decreases n,
    {
        if n == 0 {
            self
        } else {
            self.after_all(inputs, (n - 1) as nat).after(inputs[n - 1])
        }
    }

    /// The stretches that the first `n` inputs drag, in order.
    pub open spec fn drags(self, inputs: Seq<Input>, n: nat) -> Seq<Drag>
        decreases n,
    {
        if n == 0 {
            Seq::empty()
        } else {
            let before = self.drags(inputs, (n - 1) as nat);
            match self.after_all(inputs, (n - 1) as nat).dragged(inputs[n - 1]) {
                Some(drag) => before.push(drag),
                None => before,
            }
        }
    }

    /// Takes one input.
    pub fn step(&mut self, input: Input) -> (r: Option<Drag>)
        ensures
            *final(self) == old(self).after(input),
            r == old(self).dragged(input),
    {
        match input {
            Input::LeftPressed => {
                self.dragging = true;
                None
            },
            Input::LeftReleased => {
                self.dragging = false;
                None
            },
            Input::Moved { x, y } => {
                let drag: Option<Drag> = if self.dragging {
                    Some(Drag { from_x: self.last_x, from_y: self.last_y, to_x: x, to_y: y })
                } else {
                    None
                };
                self.last_x = x;
                self.last_y = y;
                drag
            },
            Input::Other => None,
        }
    }

    /// Takes the inputs of a frame and gives the stretches by which the camera turns.
    pub fn update(&mut self, inputs: &[Input]) -> (r: Vec<Drag>)
        ensures
            *final(self) == old(self).after_all(inputs@, inputs@.len()),
            r@ == old(self).drags(inputs@, inputs@.len()),
    {
        let mut out: Vec<Drag> = Vec::new();
        let mut i: usize = 0;
        while i < inputs.len()
            invariant
                0 <= i <= inputs.len(),
                *self == old(self).after_all(inputs@, i as nat),
                out@ == old(self).drags(inputs@, i as nat),
            decreases inputs.len() - i,
        {
            match self.step(inputs[i]) {
                Some(drag) => out.push(drag),
                None => {},
            }
            i = i + 1;
        }
        out
    }
}

/// The camera stays put unless the left button is held: a pointer that is not dragging and
/// is not pressed drags nothing, wherever it moves.
pub proof fn camera_stays_without_a_press(pointer: Pointer, inputs: Seq<Input>, n: nat)
    requires
        n <= inputs.len(),
        !pointer.dragging,
        forall|i: int| 0 <= i < n ==> #[trigger] inputs[i] != Input::LeftPressed,
    ensures
        pointer.drags(inputs, n) == Seq::<Drag>::empty(),
        !pointer.after_all(inputs, n).dragging,
    decreases n,
{
    if n > 0 {
        camera_stays_without_a_press(pointer, inputs, (n - 1) as nat);
        assert(inputs[n - 1] != Input::LeftPressed);
    }
}

/// While the button is held no movement is lost: each stretch starts where the one before
/// it ended, the first where the pointer was, and the last ends where it is.
pub proof fn held_drags_are_connected(pointer: Pointer, inputs: Seq<Input>, n: nat)
    requires
        n <= inputs.len(),
        pointer.dragging,
        forall|i: int| 0 <= i < n ==> #[trigger] inputs[i] != Input::LeftReleased,
    ensures
        ({
            let drags = pointer.drags(inputs, n);
            let end = pointer.after_all(inputs, n);
            &&& end.dragging
            &&& drags.len() == 0 ==> end.last_x == pointer.last_x && end.last_y == pointer.last_y
            &&& drags.len() > 0 ==> drags[0].from_x == pointer.last_x && drags[0].from_y
                == pointer.last_y && drags.last().to_x == end.last_x && drags.last().to_y
                == end.last_y
            &&& forall|k: int|
                0 < k < drags.len() ==> (#[trigger] drags[k]).from_x == drags[k - 1].to_x
                    && drags[k].from_y == drags[k - 1].to_y
        }),
    decreases n,
{
    if n > 0 {
        held_drags_are_connected(pointer, inputs, (n - 1) as nat);
        assert(inputs[n - 1] != Input::LeftReleased);
        let before = pointer.drags(inputs, (n - 1) as nat);
        let drags = pointer.drags(inputs, n);
        assert forall|k: int| 0 < k < drags.len() implies (#[trigger] drags[k]).from_x == drags[k
            - 1].to_x && drags[k].from_y == drags[k - 1].to_y by {
            if k < before.len() {
                assert(drags[k] == before[k] && drags[k - 1] == before[k - 1]);
            } else {
                assert(drags[k - 1] == before.last());
            }
        }
        if before.len() > 0 {
            assert(drags[0] == before[0]);
        }
    }
}

/// A given distance is taken just where it is a number greater than [`NEAREST`], and a given
/// part of the height just where it is a number from zero to [`HIGHEST`]; what is not taken
/// leaves the usual one.
pub proof fn given_camera_is_taken_in_range(given: u32)
    ensures
        !is_nan(given) && rank(given) > rank(NEAREST) ==> distance_of(Some(given)) == given,
        is_nan(given) || rank(given) <= rank(NEAREST) ==> distance_of(Some(given))
            == USUAL_DISTANCE,
        distance_of(None) == USUAL_DISTANCE,
        !is_nan(given) && 0 <= rank(given) <= rank(HIGHEST) ==> height_of(Some(given)) == given,
        is_nan(given) || rank(given) < 0 || rank(given) > rank(HIGHEST) ==> height_of(Some(given))
            == USUAL_HEIGHT,
        height_of(None) == USUAL_HEIGHT,
{
}

/// A pitch between the two limits is kept, and one beyond them becomes the nearer one.
pub proof fn pitch_is_kept_between_its_limits(pitch: u32)
    ensures
        is_nan(pitch) ==> limited(pitch) == pitch,
        !is_nan(pitch) && rank(PITCH_DOWN) <= rank(pitch) <= rank(PITCH_UP) ==> limited(pitch)
            == pitch,
        !is_nan(pitch) && rank(pitch) < rank(PITCH_DOWN) ==> limited(pitch) == PITCH_DOWN,
        !is_nan(pitch) && rank(PITCH_UP) < rank(pitch) ==> limited(pitch) == PITCH_UP,
        rank(PITCH_DOWN) == -rank(PITCH_UP),
{
}

/// The sides of a window count just where it has an area, and they are those of the window.
pub proof fn sides_are_those_of_a_window_with_an_area(width: u32, height: u32)
    ensures
        width * height > 0 ==> sides_of(width, height) == Some((width, height)),
        width * height == 0 ==> sides_of(width, height) is None,
{
    assert(width > 0 && height > 0 <==> width * height > 0) by (nonlinear_arith);
    assert(width * height >= 0) by (nonlinear_arith);
}

/// Whether the left button is held when the input of this index comes: it was pressed at
/// some time and not released since, or it was held from the start.
pub open spec fn is_held(pointer: Pointer, inputs: Seq<Input>, i: int) -> bool {
    ||| exists|k: int|
        0 <= k < i && #[trigger] inputs[k] == Input::LeftPressed && (forall|m: int|
            k < m < i ==> #[trigger] inputs[m] != Input::LeftReleased)
    ||| pointer.dragging && forall|m: int|
        0 <= m < i ==> #[trigger] inputs[m] != Input::LeftReleased
}

/// Whether the pointer is at this place when the input of this index comes: it moved there
/// last, or was there from the start and has not moved.
pub open spec fn is_at(pointer: Pointer, inputs: Seq<Input>, i: int, x: u32, y: u32) -> bool {
    ||| exists|k: int|
        0 <= k < i && #[trigger] inputs[k] == (Input::Moved { x, y }) && (forall|m: int|
            k < m < i ==> !(#[trigger] inputs[m] is Moved))
    ||| x == pointer.last_x && y == pointer.last_y && forall|m: int|
        0 <= m < i ==> !(#[trigger] inputs[m] is Moved)
}

/// The pointer knows whether its button is held and where it is.
pub proof fn pointer_follows_its_inputs(pointer: Pointer, inputs: Seq<Input>, n: nat)
    requires
        n <= inputs.len(),
    ensures
        pointer.after_all(inputs, n).dragging <==> is_held(pointer, inputs, n as int),
        is_at(
            pointer,
            inputs,
            n as int,
            pointer.after_all(inputs, n).last_x,
            pointer.after_all(inputs, n).last_y,
        ),
    decreases n,
{
    if n > 0 {
        let i = n - 1;
        pointer_follows_its_inputs(pointer, inputs, i as nat);
        let before = pointer.after_all(inputs, i as nat);
        let now = pointer.after_all(inputs, n);
        match inputs[i] {
            Input::LeftPressed => {
                assert(is_held(pointer, inputs, n as int));
            },
            Input::LeftReleased => {
                assert(!is_held(pointer, inputs, n as int)) by {
                    if is_held(pointer, inputs, n as int) {
                        assert(inputs[i] == Input::LeftReleased);
                    }
                }
            },
            _ => {
                if is_held(pointer, inputs, i) {
                    assert(is_held(pointer, inputs, n as int));
                }
                if is_held(pointer, inputs, n as int) {
                    assert(is_held(pointer, inputs, i));
                }
            },
        }
        match inputs[i] {
            Input::Moved { x, y } => {
                assert(now.last_x == x && now.last_y == y);
                assert(inputs[i] == (Input::Moved { x, y }));
            },
            _ => {
                assert(now.last_x == before.last_x && now.last_y == before.last_y);
            },
        }
    }
}

/// Each movement with the button held drags from where the pointer was to where it moves,
/// behind the movements before it; nothing else drags.
pub proof fn held_movements_drag(pointer: Pointer, inputs: Seq<Input>, i: nat)
    requires
        i < inputs.len(),
    ensures
        pointer.drags(inputs, 0).len() == 0,
        ({
            let before = pointer.drags(inputs, i);
            let after = pointer.drags(inputs, i + 1);
            match inputs[i as int] {
                Input::Moved { x, y } => if is_held(pointer, inputs, i as int) {
                    &&& after.len() == before.len() + 1
                    &&& forall|k: int| 0 <= k < before.len() ==> #[trigger] after[k] == before[k]
                    &&& after.last().to_x == x && after.last().to_y == y
                    &&& is_at(
                        pointer,
                        inputs,
                        i as int,
                        after.last().from_x,
                        after.last().from_y,
                    )
                } else {
                    after == before
                },
                _ => after == before,
            }
        }),
{
    pointer_follows_its_inputs(pointer, inputs, i);
}

} // verus!
