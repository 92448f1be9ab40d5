use vstd::prelude::*;
use crate::option_vec::{OptionVec, freed_at};

verus! {

/// Whether the player stands on the ground.
#[derive(PartialEq, Eq, Structural, Debug, Clone, Copy)]
pub enum MoveState {
    Grounded,
    Falling,
}

/// What a creature is doing.
#[derive(PartialEq, Eq, Structural, Debug, Clone, Copy)]
pub enum TotoroState {
    Relaxed,
    Meandering,
    Startled,
    PrePanicking,
    Panicking,
    StartDying,
    Dying,
    BrainDead,
}

/// The tools a hand can hold.
#[derive(Copy, Clone, Debug, Hash, PartialEq, Eq, Structural)]
pub enum GadgetType {
    Net,
    StickyHand,
    WaterCannon,
}

/// Position of a tool in the cycle Net, StickyHand, WaterCannon.
pub open spec fn gadget_index(g: GadgetType) -> nat {
    match g {
        GadgetType::Net => 0,
        GadgetType::StickyHand => 1,
        GadgetType::WaterCannon => 2,
    }
}

impl GadgetType {
    /// Number of tools.
    pub const COUNT: usize = 3;

    /// The tool at position `i` of the cycle.
    pub fn from_usize(i: usize) -> (g: Self)
        requires
            i < 3,
        ensures
            gadget_index(g) == i,
    {
        match i {
            0 => GadgetType::Net,
            1 => GadgetType::StickyHand,
            _ => GadgetType::WaterCannon,
        }
    }

    /// Position of this tool in the cycle.
    pub fn to_usize(self) -> (i: usize)
        ensures
            i == gadget_index(self),
    {
        match self {
            GadgetType::Net => 0,
            GadgetType::StickyHand => 1,
            GadgetType::WaterCannon => 2,
        }
    }

    /// The tool that switching hands over to: the next one in the cycle.
    pub fn next(self) -> (g: Self)
        ensures
            gadget_index(g) == (gadget_index(self) + 1) % 3,
    {
        GadgetType::from_usize((self.to_usize() + 1) % GadgetType::COUNT)
    }
}

/// Positions name tools one to one.
pub proof fn law_gadget_index_injective(g: GadgetType, h: GadgetType)
    ensures
        gadget_index(g) < 3,
        gadget_index(g) == gadget_index(h) ==> g == h,
{
}

/// Jumps the player gets back on landing.
pub const MAX_JUMPS: usize = 1;

/// The player leaves the ground: one jump is used up and the player falls.
pub fn set_player_falling(movement_state: &mut MoveState, jumps_remaining: &mut usize)
    requires
        *old(jumps_remaining) > 0,
    ensures
        *final(jumps_remaining) == *old(jumps_remaining) - 1,
        *final(movement_state) == MoveState::Falling,
{
    *jumps_remaining = *jumps_remaining - 1;
    *movement_state = MoveState::Falling;
}

/// Frees the slot `idx` and drops the selection when it was that slot.
pub fn delete_object<T>(objects: &mut OptionVec<T>, selected: &mut Option<usize>, idx: usize)
    ensures
        final(objects)@ == freed_at(old(objects)@, idx as int),
        *final(selected) == (if *old(selected) == Some(idx) {
            None
        } else {
            *old(selected)
        }),
{
    objects.delete(idx);
    if let Some(i) = selected {
        if *i == idx {
            *selected = None;
        }
    }
}

} // verus!
