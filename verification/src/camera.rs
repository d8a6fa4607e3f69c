//! The camera controls: which keys move and turn the camera, and which
//! toggle its views. The amounts (speeds, angles) are applied by the caller,
//! in the order given here.

use crate::app::InputState;
use vstd::prelude::*;

verus! {

pub const KEY_W: u32 = 0;
pub const KEY_A: u32 = 1;
pub const KEY_S: u32 = 2;
pub const KEY_D: u32 = 3;
pub const KEY_E: u32 = 4;
pub const KEY_Q: u32 = 5;
pub const KEY_R: u32 = 6;
pub const KEY_F: u32 = 7;
pub const KEY_G: u32 = 8;
pub const KEY_T: u32 = 9;
pub const KEY_Y: u32 = 10;
pub const KEY_H: u32 = 11;
pub const KEY_ARROW_UP: u32 = 12;
pub const KEY_ARROW_DOWN: u32 = 13;
pub const KEY_ARROW_LEFT: u32 = 14;
pub const KEY_ARROW_RIGHT: u32 = 15;
pub const KEY_SHIFT_LEFT: u32 = 16;

/// An axis of the camera's own frame.
#[derive(Clone, Copy, Debug)]
pub enum Direction {
    Forward,
    Right,
    Up,
    Ana,
}

/// A plane the camera turns in.
#[derive(Clone, Copy, Debug)]
pub enum Plane {
    /// Pitch, kept apart from the other rotations.
    Xy,
    Xz,
    Xw,
    Zw,
}

/// What the held and just-pressed keys ask of the camera this frame. A move
/// or a turn with `true` goes the positive way.
pub struct CameraControls {
    pub toggle_ground_view: bool,
    pub toggle_screen_door: bool,
    pub screen_door_increase: bool,
    pub screen_door_decrease: bool,
    pub moves: Vec<(Direction, bool)>,
    pub turns: Vec<(Plane, bool)>,
}

/// `a` alone when `c` holds, else nothing.
pub open spec fn when<A>(c: bool, a: A) -> Seq<A> {
    if c {
        seq![a]
    } else {
        Seq::empty()
    }
}

/// The moves the held keys ask for, in the order they are applied.
pub open spec fn spec_moves(keys: Set<u32>) -> Seq<(Direction, bool)> {
    when(keys.contains(KEY_W), (Direction::Forward, true)) + when(
        keys.contains(KEY_S),
        (Direction::Forward, false),
    ) + when(keys.contains(KEY_A), (Direction::Right, false)) + when(
        keys.contains(KEY_D),
        (Direction::Right, true),
    ) + when(keys.contains(KEY_E), (Direction::Up, true)) + when(
        keys.contains(KEY_Q),
        (Direction::Up, false),
    ) + when(keys.contains(KEY_R), (Direction::Ana, true)) + when(
        keys.contains(KEY_F),
        (Direction::Ana, false),
    )
}

/// The turns the held keys ask for, in the order they are applied: without
/// shift the arrows pitch (xy) and turn in xz, with shift they turn in xw
/// and zw.
pub open spec fn spec_turns(keys: Set<u32>) -> Seq<(Plane, bool)> {
    let (vertical, horizontal) = if !keys.contains(KEY_SHIFT_LEFT) {
        (Plane::Xy, Plane::Xz)
    } else {
        (Plane::Xw, Plane::Zw)
    };
    when(keys.contains(KEY_ARROW_UP), (vertical, true)) + when(
        keys.contains(KEY_ARROW_DOWN),
        (vertical, false),
    ) + when(keys.contains(KEY_ARROW_LEFT), (horizontal, false)) + when(
        keys.contains(KEY_ARROW_RIGHT),
        (horizontal, true),
    )
}

proof fn lemma_when_contains<A>(c: bool, a: A, x: A)
    ensures
        (c && x == a) <==> when(c, a).contains(x),
{
    if c {
        assert(seq![a][0] == a);
    }
}

proof fn lemma_concat_contains<A>(s: Seq<A>, t: Seq<A>, x: A)
    ensures
        (s + t).contains(x) <==> (s.contains(x) || t.contains(x)),
{
    let u = s + t;
    if u.contains(x) {
        let i = choose|i: int| 0 <= i < u.len() && u[i] == x;
        if i < s.len() {
            assert(s[i] == x);
        } else {
            assert(t[i - s.len()] == x);
        }
    }
    if s.contains(x) {
        let i = choose|i: int| 0 <= i < s.len() && s[i] == x;
        assert(u[i] == x);
    }
    if t.contains(x) {
        let j = choose|j: int| 0 <= j < t.len() && t[j] == x;
        assert(u[s.len() + j] == x);
    }
}

proof fn lemma_four_contains<A>(c1: bool, a1: A, c2: bool, a2: A, c3: bool, a3: A, c4: bool, a4: A, x: A)
    ensures
        (when(c1, a1) + when(c2, a2) + when(c3, a3) + when(c4, a4)).contains(x) <==> ((c1 && x
            == a1) || (c2 && x == a2) || (c3 && x == a3) || (c4 && x == a4)),
{
    lemma_when_contains(c1, a1, x);
    lemma_when_contains(c2, a2, x);
    lemma_when_contains(c3, a3, x);
    lemma_when_contains(c4, a4, x);
    lemma_concat_contains(when(c1, a1), when(c2, a2), x);
    lemma_concat_contains(when(c1, a1) + when(c2, a2), when(c3, a3), x);
    lemma_concat_contains(when(c1, a1) + when(c2, a2) + when(c3, a3), when(c4, a4), x);
}

proof fn lemma_moves_contains(keys: Set<u32>, x: (Direction, bool))
    ensures
        spec_moves(keys).contains(x) <==> ((keys.contains(KEY_W) && x == (Direction::Forward, true))
            || (keys.contains(KEY_S) && x == (Direction::Forward, false)) || (keys.contains(KEY_A)
            && x == (Direction::Right, false)) || (keys.contains(KEY_D) && x == (Direction::Right, true))
            || (keys.contains(KEY_E) && x == (Direction::Up, true)) || (keys.contains(KEY_Q) && x == (
        Direction::Up, false)) || (keys.contains(KEY_R) && x == (Direction::Ana, true)) || (
        keys.contains(KEY_F) && x == (Direction::Ana, false))),
{
    let w1 = when(keys.contains(KEY_W), (Direction::Forward, true));
    let w2 = when(keys.contains(KEY_S), (Direction::Forward, false));
    let w3 = when(keys.contains(KEY_A), (Direction::Right, false));
    let w4 = when(keys.contains(KEY_D), (Direction::Right, true));
    let w5 = when(keys.contains(KEY_E), (Direction::Up, true));
    let w6 = when(keys.contains(KEY_Q), (Direction::Up, false));
    let w7 = when(keys.contains(KEY_R), (Direction::Ana, true));
    let w8 = when(keys.contains(KEY_F), (Direction::Ana, false));
    lemma_when_contains(keys.contains(KEY_W), (Direction::Forward, true), x);
    lemma_when_contains(keys.contains(KEY_S), (Direction::Forward, false), x);
    lemma_when_contains(keys.contains(KEY_A), (Direction::Right, false), x);
    lemma_when_contains(keys.contains(KEY_D), (Direction::Right, true), x);
    lemma_when_contains(keys.contains(KEY_E), (Direction::Up, true), x);
    lemma_when_contains(keys.contains(KEY_Q), (Direction::Up, false), x);
    lemma_when_contains(keys.contains(KEY_R), (Direction::Ana, true), x);
    lemma_when_contains(keys.contains(KEY_F), (Direction::Ana, false), x);
    lemma_concat_contains(w1, w2, x);
    lemma_concat_contains(w1 + w2, w3, x);
    lemma_concat_contains(w1 + w2 + w3, w4, x);
    lemma_concat_contains(w1 + w2 + w3 + w4, w5, x);
    lemma_concat_contains(w1 + w2 + w3 + w4 + w5, w6, x);
    lemma_concat_contains(w1 + w2 + w3 + w4 + w5 + w6, w7, x);
    lemma_concat_contains(w1 + w2 + w3 + w4 + w5 + w6 + w7, w8, x);
}

/// Each movement key asks for exactly its own move: W forward, S backward,
/// D right, A left, E up, Q down, R ana, F kata; a move is asked for exactly
/// when its key is held.
pub proof fn lemma_moves_follow_keys(keys: Set<u32>)
    ensures
        spec_moves(keys).contains((Direction::Forward, true)) <==> keys.contains(KEY_W),
        spec_moves(keys).contains((Direction::Forward, false)) <==> keys.contains(KEY_S),
        spec_moves(keys).contains((Direction::Right, true)) <==> keys.contains(KEY_D),
        spec_moves(keys).contains((Direction::Right, false)) <==> keys.contains(KEY_A),
        spec_moves(keys).contains((Direction::Up, true)) <==> keys.contains(KEY_E),
        spec_moves(keys).contains((Direction::Up, false)) <==> keys.contains(KEY_Q),
        spec_moves(keys).contains((Direction::Ana, true)) <==> keys.contains(KEY_R),
        spec_moves(keys).contains((Direction::Ana, false)) <==> keys.contains(KEY_F),
{
    lemma_moves_contains(keys, (Direction::Forward, true));
    lemma_moves_contains(keys, (Direction::Forward, false));
    lemma_moves_contains(keys, (Direction::Right, true));
    lemma_moves_contains(keys, (Direction::Right, false));
    lemma_moves_contains(keys, (Direction::Up, true));
    lemma_moves_contains(keys, (Direction::Up, false));
    lemma_moves_contains(keys, (Direction::Ana, true));
    lemma_moves_contains(keys, (Direction::Ana, false));
}

/// Without shift, up and down pitch (xy, up positive) and left and right
/// turn in xz (right positive); with shift, up and down turn in xw and left
/// and right in zw, with the same signs. A turn is asked for exactly when
/// its arrow is held, and never in the planes of the other shift state.
pub proof fn lemma_turns_follow_keys(keys: Set<u32>)
    ensures
        !keys.contains(KEY_SHIFT_LEFT) ==> {
            &&& spec_turns(keys).contains((Plane::Xy, true)) <==> keys.contains(KEY_ARROW_UP)
            &&& spec_turns(keys).contains((Plane::Xy, false)) <==> keys.contains(KEY_ARROW_DOWN)
            &&& spec_turns(keys).contains((Plane::Xz, false)) <==> keys.contains(KEY_ARROW_LEFT)
            &&& spec_turns(keys).contains((Plane::Xz, true)) <==> keys.contains(KEY_ARROW_RIGHT)
            &&& !spec_turns(keys).contains((Plane::Xw, true))
            &&& !spec_turns(keys).contains((Plane::Xw, false))
            &&& !spec_turns(keys).contains((Plane::Zw, true))
            &&& !spec_turns(keys).contains((Plane::Zw, false))
        },
        keys.contains(KEY_SHIFT_LEFT) ==> {
            &&& spec_turns(keys).contains((Plane::Xw, true)) <==> keys.contains(KEY_ARROW_UP)
            &&& spec_turns(keys).contains((Plane::Xw, false)) <==> keys.contains(KEY_ARROW_DOWN)
            &&& spec_turns(keys).contains((Plane::Zw, false)) <==> keys.contains(KEY_ARROW_LEFT)
            &&& spec_turns(keys).contains((Plane::Zw, true)) <==> keys.contains(KEY_ARROW_RIGHT)
            &&& !spec_turns(keys).contains((Plane::Xy, true))
            &&& !spec_turns(keys).contains((Plane::Xy, false))
            &&& !spec_turns(keys).contains((Plane::Xz, true))
            &&& !spec_turns(keys).contains((Plane::Xz, false))
        },
{
    let (v, h) = if !keys.contains(KEY_SHIFT_LEFT) {
        (Plane::Xy, Plane::Xz)
    } else {
        (Plane::Xw, Plane::Zw)
    };
    lemma_turns_contains(keys, v, h, (Plane::Xy, true));
    lemma_turns_contains(keys, v, h, (Plane::Xy, false));
    lemma_turns_contains(keys, v, h, (Plane::Xz, true));
    lemma_turns_contains(keys, v, h, (Plane::Xz, false));
    lemma_turns_contains(keys, v, h, (Plane::Xw, true));
    lemma_turns_contains(keys, v, h, (Plane::Xw, false));
    lemma_turns_contains(keys, v, h, (Plane::Zw, true));
    lemma_turns_contains(keys, v, h, (Plane::Zw, false));
}

proof fn lemma_turns_contains(keys: Set<u32>, v: Plane, h: Plane, x: (Plane, bool))
    requires
        (v, h) == if !keys.contains(KEY_SHIFT_LEFT) {
            (Plane::Xy, Plane::Xz)
        } else {
            (Plane::Xw, Plane::Zw)
        },
    ensures
        spec_turns(keys).contains(x) <==> ((keys.contains(KEY_ARROW_UP) && x == (v, true)) || (
        keys.contains(KEY_ARROW_DOWN) && x == (v, false)) || (keys.contains(KEY_ARROW_LEFT) && x
            == (h, false)) || (keys.contains(KEY_ARROW_RIGHT) && x == (h, true))),
{
    lemma_four_contains(
        keys.contains(KEY_ARROW_UP),
        (v, true),
        keys.contains(KEY_ARROW_DOWN),
        (v, false),
        keys.contains(KEY_ARROW_LEFT),
        (h, false),
        keys.contains(KEY_ARROW_RIGHT),
        (h, true),
        x,
    );
}

fn push_when<A>(v: &mut Vec<A>, c: bool, a: A)
    ensures
        final(v)@ == old(v)@ + when(c, a),
{
    if c {
        v.push(a);
        assert(final(v)@ =~= old(v)@ + when(c, a));
    } else {
        assert(old(v)@ =~= old(v)@ + when(c, a));
    }
}

/// What the keys ask of the camera this frame.
pub fn camera_controls(input: &InputState) -> (r: CameraControls)
    ensures
        r.toggle_ground_view == input@.keys_just_pressed.contains(KEY_G),
        r.toggle_screen_door == input@.keys_just_pressed.contains(KEY_T),
        r.screen_door_increase == input@.keys.contains(KEY_Y),
        r.screen_door_decrease == input@.keys.contains(KEY_H),
        r.moves@ == spec_moves(input@.keys),
        r.turns@ == spec_turns(input@.keys),
        r.moves@.contains((Direction::Forward, true)) <==> input@.keys.contains(KEY_W),
        r.moves@.contains((Direction::Forward, false)) <==> input@.keys.contains(KEY_S),
        r.moves@.contains((Direction::Right, true)) <==> input@.keys.contains(KEY_D),
        r.moves@.contains((Direction::Right, false)) <==> input@.keys.contains(KEY_A),
        r.moves@.contains((Direction::Up, true)) <==> input@.keys.contains(KEY_E),
        r.moves@.contains((Direction::Up, false)) <==> input@.keys.contains(KEY_Q),
        r.moves@.contains((Direction::Ana, true)) <==> input@.keys.contains(KEY_R),
        r.moves@.contains((Direction::Ana, false)) <==> input@.keys.contains(KEY_F),
{
    proof {
        lemma_moves_follow_keys(input@.keys);
        lemma_turns_follow_keys(input@.keys);
    }
    let mut moves: Vec<(Direction, bool)> = Vec::new();
    push_when(&mut moves, input.key_pressed(KEY_W), (Direction::Forward, true));
    push_when(&mut moves, input.key_pressed(KEY_S), (Direction::Forward, false));
    push_when(&mut moves, input.key_pressed(KEY_A), (Direction::Right, false));
    push_when(&mut moves, input.key_pressed(KEY_D), (Direction::Right, true));
    push_when(&mut moves, input.key_pressed(KEY_E), (Direction::Up, true));
    push_when(&mut moves, input.key_pressed(KEY_Q), (Direction::Up, false));
    push_when(&mut moves, input.key_pressed(KEY_R), (Direction::Ana, true));
    push_when(&mut moves, input.key_pressed(KEY_F), (Direction::Ana, false));
    let (vertical, horizontal) = if input.key_released(KEY_SHIFT_LEFT) {
        (Plane::Xy, Plane::Xz)
    } else {
        (Plane::Xw, Plane::Zw)
    };
    let mut turns: Vec<(Plane, bool)> = Vec::new();
    push_when(&mut turns, input.key_pressed(KEY_ARROW_UP), (vertical, true));
    push_when(&mut turns, input.key_pressed(KEY_ARROW_DOWN), (vertical, false));
    push_when(&mut turns, input.key_pressed(KEY_ARROW_LEFT), (horizontal, false));
    push_when(&mut turns, input.key_pressed(KEY_ARROW_RIGHT), (horizontal, true));
    assert(moves@ =~= spec_moves(input@.keys));
    assert(turns@ =~= spec_turns(input@.keys));
    CameraControls {
        toggle_ground_view: input.key_just_pressed(KEY_G),
        toggle_screen_door: input.key_just_pressed(KEY_T),
        screen_door_increase: input.key_pressed(KEY_Y),
        screen_door_decrease: input.key_pressed(KEY_H),
        moves,
        turns,
    }
}

} // verus!
