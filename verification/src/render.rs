use vstd::prelude::*;
use crate::routines::RadioOption;

verus! {

/// Which debug view the scene shader draws.
#[derive(PartialEq, Eq, Structural, Debug, Clone, Copy)]
pub enum FragmentFlag {
    Default,
    Albedo,
    Normals,
    CascadeZones,
    Shadowed,
}

impl Default for FragmentFlag {
    fn default() -> (f: Self)
        ensures
            f == FragmentFlag::Default,
    {
        FragmentFlag::Default
    }
}

impl RadioOption for FragmentFlag {
    open spec fn spec_default_option() -> Self {
        FragmentFlag::Default
    }

    fn same_option(&self, other: &Self) -> (b: bool) {
        *self == *other
    }

    fn default_option() -> (r: Self) {
        FragmentFlag::default()
    }
}

/// The shader switch that a debug view turns on; the plain view turns none on.
pub fn fragment_flag_uniform(flag: FragmentFlag) -> (name: Option<&'static str>)
    ensures
        name == (match flag {
            FragmentFlag::Albedo => Some("visualize_albedo"),
            FragmentFlag::Shadowed => Some("visualize_shadowed"),
            FragmentFlag::Normals => Some("visualize_normals"),
            FragmentFlag::CascadeZones => Some("visualize_cascade_zone"),
            FragmentFlag::Default => None,
        }),
{
    match flag {
        FragmentFlag::Albedo => Some("visualize_albedo"),
        FragmentFlag::Shadowed => Some("visualize_shadowed"),
        FragmentFlag::Normals => Some("visualize_normals"),
        FragmentFlag::CascadeZones => Some("visualize_cascade_zone"),
        FragmentFlag::Default => None,
    }
}

/// Number of 32-pixel post-processing work groups that cover `size` pixels: `size / 32` rounded up.
pub fn postfx_work_groups(size: u32) -> (groups: u32)
    requires
        size <= u32::MAX - 32,
    ensures
        groups == (size + 31) / 32,
        groups * 32 >= size,
        groups * 32 < size + 32,
{
    let kernel_size: u32 = 32;
    (size + kernel_size - 1) / kernel_size
}

} // verus!
