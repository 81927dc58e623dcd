//! The compositors whose config dialects the engine speaks.
use vstd::prelude::*;

verus! {

#[derive(Debug, Clone, Copy, PartialEq, Eq, Structural)]
pub enum Compositor {
    Hyprland,
    Sway,
    River,
    Unknown,
}

pub open spec fn label_of(c: Compositor) -> Seq<char> {
    match c {
        Compositor::Hyprland => "Hyprland"@,
        Compositor::Sway => "Sway"@,
        Compositor::River => "River"@,
        Compositor::Unknown => "Unknown"@,
    }
}

impl Compositor {
    /// Human-readable name.
    pub fn label(self) -> (r: &'static str)
        ensures
            r@ == label_of(self),
    {
        match self {
            Compositor::Hyprland => "Hyprland",
            Compositor::Sway => "Sway",
            Compositor::River => "River",
            Compositor::Unknown => "Unknown",
        }
    }

    /// Only Hyprland knows default and persistent workspaces.
    pub fn supports_workspace_defaults(self) -> (r: bool)
        ensures
            r == (self == Compositor::Hyprland),
    {
        matches!(self, Compositor::Hyprland)
    }
}

} // verus!
