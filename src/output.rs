//! The engine's model of a display output: name, modes, geometry, scale and
//! transform, as plain values.
use vstd::prelude::*;

verus! {

/// Rotation and flip of an output.
#[derive(Debug, Clone, Copy, PartialEq, Eq, Structural)]
pub enum Transform {
    Normal,
    Rotate90,
    Rotate180,
    Rotate270,
    Flipped,
    Flipped90,
    Flipped180,
    Flipped270,
}

/// A display mode.
#[derive(Debug, Clone, Copy, PartialEq, Eq, Structural)]
pub struct Mode {
    pub width: i32,
    pub height: i32,
    pub refresh_rate: i32,
    pub preferred: bool,
    pub is_current: bool,
}

/// One display output. `scale` is in hundredths (150 is a scale of 1.5).
#[derive(Debug, Clone)]
pub struct Monitor {
    pub name: String,
    pub enabled: bool,
    pub x: i32,
    pub y: i32,
    pub modes: Vec<Mode>,
    pub width: i32,
    pub height: i32,
    pub scale: u32,
    pub transform: Transform,
}

pub open spec fn is_quarter_turn(t: Transform) -> bool {
    t == Transform::Rotate90 || t == Transform::Rotate270 || t == Transform::Flipped90 || t
        == Transform::Flipped270
}

/// The first mode that satisfies `current` (or `preferred`).
pub open spec fn first_mode(modes: Seq<Mode>, current: bool) -> Option<Mode>
    decreases modes.len(),
{
    if modes.len() == 0 {
        None
    } else if (if current {
        modes[0].is_current
    } else {
        modes[0].preferred
    }) {
        Some(modes[0])
    } else {
        first_mode(modes.drop_first(), current)
    }
}

/// Width and height of the mode in use: the current mode, else the preferred
/// one, else the first, else the output's own resolution.
pub open spec fn resolution_spec(m: Monitor) -> (i32, i32) {
    match first_mode(m.modes@, true) {
        Some(md) => (md.width, md.height),
        None => match first_mode(m.modes@, false) {
            Some(md) => (md.width, md.height),
            None => if m.modes@.len() > 0 {
                (m.modes@[0].width, m.modes@[0].height)
            } else {
                (m.width, m.height)
            },
        },
    }
}

/// Width and height on screen: swapped by a quarter turn.
pub open spec fn dims_spec(m: Monitor) -> (i32, i32) {
    let r = resolution_spec(m);
    if is_quarter_turn(m.transform) {
        (r.1, r.0)
    } else {
        r
    }
}

/// The first mode of `modes` marked current (or preferred).
pub fn find_mode(modes: &Vec<Mode>, current: bool) -> (r: Option<Mode>)
    ensures
        r == first_mode(modes@, current),
{
    let mut i: usize = 0;
    assert(modes@.subrange(0, modes@.len() as int) =~= modes@);
    while i < modes.len()
        invariant
            i <= modes@.len(),
            first_mode(modes@, current) == first_mode(
                modes@.subrange(i as int, modes@.len() as int),
                current,
            ),
        decreases modes@.len() - i,
    {
        let md = modes[i];
        let ghost rest = modes@.subrange(i as int, modes@.len() as int);
        assert(rest[0] == md);
        if (current && md.is_current) || (!current && md.preferred) {
            return Some(md);
        }
        assert(rest.drop_first() =~= modes@.subrange(i + 1, modes@.len() as int));
        i = i + 1;
    }
    None
}

/// Resolution of the mode in use.
pub fn monitor_resolution(monitor: &Monitor) -> (r: (i32, i32))
    ensures
        r == resolution_spec(*monitor),
{
    if let Some(md) = find_mode(&monitor.modes, true) {
        return (md.width, md.height);
    }
    if let Some(md) = find_mode(&monitor.modes, false) {
        return (md.width, md.height);
    }
    if monitor.modes.len() > 0 {
        return (monitor.modes[0].width, monitor.modes[0].height);
    }
    (monitor.width, monitor.height)
}

/// Width and height on screen, after the transform.
pub fn effective_dimensions(monitor: &Monitor) -> (r: (i32, i32))
    ensures
        r == dims_spec(*monitor),
{
    let (w, h) = monitor_resolution(monitor);
    match monitor.transform {
        Transform::Rotate90 | Transform::Rotate270 | Transform::Flipped90 | Transform::Flipped270 => (
            h,
            w,
        ),
        _ => (w, h),
    }
}

pub open spec fn transform_label_spec(t: Transform) -> Seq<char> {
    match t {
        Transform::Normal => "Normal"@,
        Transform::Rotate90 => "Rotate 90"@,
        Transform::Rotate180 => "Rotate 180"@,
        Transform::Rotate270 => "Rotate 270"@,
        Transform::Flipped => "Flipped"@,
        Transform::Flipped90 => "Flipped 90"@,
        Transform::Flipped180 => "Flipped 180"@,
        Transform::Flipped270 => "Flipped 270"@,
    }
}

/// Human-readable name of a transform.
pub fn transform_label(t: Transform) -> (r: &'static str)
    ensures
        r@ == transform_label_spec(t),
{
    match t {
        Transform::Normal => "Normal",
        Transform::Rotate90 => "Rotate 90",
        Transform::Rotate180 => "Rotate 180",
        Transform::Rotate270 => "Rotate 270",
        Transform::Flipped => "Flipped",
        Transform::Flipped90 => "Flipped 90",
        Transform::Flipped180 => "Flipped 180",
        Transform::Flipped270 => "Flipped 270",
    }
}

pub open spec fn transform_at(i: int) -> Transform {
    if i == 0 {
        Transform::Normal
    } else if i == 1 {
        Transform::Rotate90
    } else if i == 2 {
        Transform::Rotate180
    } else if i == 3 {
        Transform::Rotate270
    } else if i == 4 {
        Transform::Flipped
    } else if i == 5 {
        Transform::Flipped90
    } else if i == 6 {
        Transform::Flipped180
    } else {
        Transform::Flipped270
    }
}

/// The transforms in list order.
pub fn transform_from_index(i: usize) -> (r: Option<Transform>)
    ensures
        i < 8 ==> r == Some(transform_at(i as int)),
        i >= 8 ==> r is None,
{
    match i {
        0 => Some(Transform::Normal),
        1 => Some(Transform::Rotate90),
        2 => Some(Transform::Rotate180),
        3 => Some(Transform::Rotate270),
        4 => Some(Transform::Flipped),
        5 => Some(Transform::Flipped90),
        6 => Some(Transform::Flipped180),
        7 => Some(Transform::Flipped270),
        _ => None,
    }
}

/// Position of a transform in list order.
pub fn transform_index(t: Transform) -> (r: usize)
    ensures
        r < 8,
        transform_at(r as int) == t,
{
    match t {
        Transform::Normal => 0,
        Transform::Rotate90 => 1,
        Transform::Rotate180 => 2,
        Transform::Rotate270 => 3,
        Transform::Flipped => 4,
        Transform::Flipped90 => 5,
        Transform::Flipped180 => 6,
        Transform::Flipped270 => 7,
    }
}

} // verus!
