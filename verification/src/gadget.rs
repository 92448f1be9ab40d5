use vstd::prelude::*;

verus! {

/// The tools a hand can hold.
#[derive(Copy, Clone, Debug, Hash, PartialEq, Eq, Structural)]
pub enum GadgetType {
    Shotgun,
    StickyHand,
    WaterCannon,
}

/// Position of a tool in the cycle Shotgun, StickyHand, WaterCannon.
pub open spec fn gadget_index(g: GadgetType) -> nat {
    match g {
        GadgetType::Shotgun => 0,
        GadgetType::StickyHand => 1,
        GadgetType::WaterCannon => 2,
    }
}

impl GadgetType {
    /// Number of tools.
    pub const COUNT: usize = 3;

    /// The tool at position `i` of the cycle.
    pub fn from_usize(i: usize) -> (g: Self)
        requires
            i < 3,
        ensures
            gadget_index(g) == i,
    {
        match i {
            0 => GadgetType::Shotgun,
            1 => GadgetType::StickyHand,
            _ => GadgetType::WaterCannon,
        }
    }

    /// Position of this tool in the cycle.
    pub fn to_usize(self) -> (i: usize)
        ensures
            i == gadget_index(self),
    {
        match self {
            GadgetType::Shotgun => 0,
            GadgetType::StickyHand => 1,
            GadgetType::WaterCannon => 2,
        }
    }

    /// The tool that switching hands over to: the next one in the cycle.
    pub fn next(self) -> (g: Self)
        ensures
            gadget_index(g) == (gadget_index(self) + 1) % 3,
    {
        GadgetType::from_usize((self.to_usize() + 1) % GadgetType::COUNT)
    }
}

/// Positions name tools one to one, so that looking a tool up by its
/// position gives the same tool back.
pub proof fn law_gadget_index_injective(g: GadgetType, h: GadgetType)
    ensures
        gadget_index(g) < 3,
        gadget_index(g) == gadget_index(h) ==> g == h,
{
}

} // verus!
