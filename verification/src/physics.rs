use vstd::prelude::*;

verus! {

/// Input state from the player.
#[derive(Clone, Copy, Debug, PartialEq, Eq, Structural)]
pub struct InputState {
    pub left: bool,
    pub right: bool,
    pub jump: bool,
    pub interact: bool,
}

impl Default for InputState {
    /// No key held.
    fn default() -> (s: Self)
        ensures
            !s.left && !s.right && !s.jump && !s.interact,
    {
        InputState { left: false, right: false, jump: false, interact: false }
    }
}

/// Which way the player walks.
#[derive(Clone, Copy, Debug, PartialEq, Eq, Structural)]
pub enum Walk {
    Left,
    Right,
    Still,
}

/// Which way the input makes the player walk: one direction when only its
/// key is held, standing still when neither or both are.
pub fn walk_direction(input: &InputState) -> (w: Walk)
    ensures
        w == (if input.left && !input.right {
            Walk::Left
        } else if input.right && !input.left {
            Walk::Right
        } else {
            Walk::Still
        }),
{
    if input.left && !input.right {
        Walk::Left
    } else if input.right && !input.left {
        Walk::Right
    } else {
        Walk::Still
    }
}

/// Whether a jump starts: the jump key went down this tick (it was not held
/// the tick before) while the player stands on the ground.
pub fn starts_jump(input: &InputState, prev_jump: bool, on_ground: bool) -> (b: bool)
    ensures
        b == (input.jump && !prev_jump && on_ground),
{
    input.jump && !prev_jump && on_ground
}

} // verus!
