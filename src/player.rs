use vstd::prelude::*;

verus! {

/// The movement and turn flags held down during one frame.
#[derive(Clone, Copy, Debug, PartialEq, Eq, Structural)]
pub struct KeyState {
    pub up: bool,
    pub down: bool,
    pub left: bool,
    pub right: bool,
    pub w: bool,
    pub a: bool,
    pub s: bool,
    pub d: bool,
}

/// The viewpoint: position in map units and facing angle.
#[derive(Clone, Copy, Debug, PartialEq, Eq)]
pub struct Player {
    pub pos: (i16, i16),
    pub angle: i16,
}

/// Distance moved, or angle turned, per active flag and frame.
pub const STEP: i16 = 2;

/// `v` brought back into the 16-bit two's-complement range (for `|v|` within
/// one wrap of it).
pub open spec fn wrap_i16(v: int) -> int {
    if v > 32767 {
        v - 65536
    } else if v < -32768 {
        v + 65536
    } else {
        v
    }
}

/// The net change that a pair of opposed flags asks for.
pub open spec fn axis_delta(plus: bool, minus: bool) -> int {
    (if plus { STEP as int } else { 0 }) - (if minus { STEP as int } else { 0 })
}

/// `v` moved by one step up when `plus` is set and one step down when
/// `minus` is set, wrapping at the ends of the 16-bit range.
fn step_axis(v: i16, plus: bool, minus: bool) -> (r: i16)
    ensures
        r == wrap_i16(v + axis_delta(plus, minus)),
{
    let mut n: i32 = v as i32;
    if plus {
        n = n + STEP as i32;
    }
    if minus {
        n = n - STEP as i32;
    }
    if n > 32767 {
        (n - 65536) as i16
    } else if n < -32768 {
        (n + 65536) as i16
    } else {
        n as i16
    }
}

impl Player {
    /// `next` is `prev` moved by the flags of `k`: W/S along y, D/A along x,
    /// Left/Right turning.
    pub open spec fn moved(prev: Player, next: Player, k: KeyState) -> bool {
        &&& next.pos.0 == wrap_i16(prev.pos.0 + axis_delta(k.d, k.a))
        &&& next.pos.1 == wrap_i16(prev.pos.1 + axis_delta(k.w, k.s))
        &&& next.angle == wrap_i16(prev.angle + axis_delta(k.left, k.right))
    }

    /// Advances the viewpoint by one frame of input.
    pub fn update(&mut self, key_state: &KeyState)
        ensures
            Player::moved(*old(self), *final(self), *key_state),
    {
        self.control(key_state);
    }

    /// Applies each active flag's fixed delta; simultaneous flags add up.
    pub fn control(&mut self, key_state: &KeyState)
        ensures
            Player::moved(*old(self), *final(self), *key_state),
    {
        let x = step_axis(self.pos.0, key_state.d, key_state.a);
        let y = step_axis(self.pos.1, key_state.w, key_state.s);
        let angle = step_axis(self.angle, key_state.left, key_state.right);
        self.pos = (x, y);
        self.angle = angle;
    }
}

} // verus!
