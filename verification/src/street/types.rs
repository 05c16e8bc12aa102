use vstd::prelude::*;

verus! {

/// The sky gradient of a street, as two colour strings.
pub struct Gradient {
    pub top: String,
    pub bottom: String,
}

/// Visual filters applied to a background layer; each is absent when the
/// street does not set it.
#[derive(Clone, Copy, Debug, PartialEq, Eq, Structural)]
pub struct LayerFilters {
    pub brightness: Option<i32>,
    pub contrast: Option<i32>,
    pub saturation: Option<i32>,
    pub blur: Option<i32>,
    pub tint_color: Option<i32>,
    pub tint_amount: Option<i32>,
}

/// Where a signpost leads: the street's ID and its label.
pub struct SignpostConnection {
    pub target_tsid: String,
    pub target_label: String,
}

/// Whether a platform with player permeability `pc_perm` holds the player
/// up from above: all but the bottom-only (1) and pass-through (0) ones.
pub fn solid_from_top(pc_perm: Option<i32>) -> (b: bool)
    ensures
        b == !(pc_perm == Some(1i32) || pc_perm == Some(0i32)),
{
    !matches!(pc_perm, Some(1) | Some(0))
}

/// Whether a platform with player permeability `pc_perm` blocks from
/// below: all but the top-only (-1) and pass-through (0) ones.
pub fn solid_from_bottom(pc_perm: Option<i32>) -> (b: bool)
    ensures
        b == !(pc_perm == Some(-1i32) || pc_perm == Some(0i32)),
{
    !matches!(pc_perm, Some(-1) | Some(0))
}

/// Whether a wall with player permeability `pc_perm` blocks movement from
/// the left: all but the right-only (1) and pass-through (0) ones.
pub fn blocks_from_left(pc_perm: Option<i32>) -> (b: bool)
    ensures
        b == !(pc_perm == Some(1i32) || pc_perm == Some(0i32)),
{
    !matches!(pc_perm, Some(1) | Some(0))
}

/// Whether a wall with player permeability `pc_perm` blocks movement from
/// the right: all but the left-only (-1) and pass-through (0) ones.
pub fn blocks_from_right(pc_perm: Option<i32>) -> (b: bool)
    ensures
        b == !(pc_perm == Some(-1i32) || pc_perm == Some(0i32)),
{
    !matches!(pc_perm, Some(-1) | Some(0))
}

} // verus!
