//! Writing an arrangement in each compositor's config dialect.
use vstd::prelude::*;

use crate::compositor::Compositor;
use crate::output::{first_mode, find_mode, Monitor, Transform};
use crate::text::{chars_of, digit_char, int_text, nat_text, push_chars, push_int, push_nat, push_str, string_of};
use crate::workspace_config::{rules_view, WorkspaceRule};

verus! {

broadcast use vstd::string::group_string_axioms;

pub open spec fn two_digits(n: nat) -> Seq<char> {
    seq![digit_char(n / 10), digit_char(n % 10)]
}

/// A scale in hundredths as the config files write it: whole scales without
/// a fraction, others with two decimals.
pub open spec fn scale_text(c: u32) -> Seq<char> {
    if c % 100 == 0 {
        nat_text((c / 100) as nat)
    } else {
        nat_text((c / 100) as nat) + "."@ + two_digits((c % 100) as nat)
    }
}

/// Width, height and refresh rate of the current mode, or 0x0@60 without one.
pub open spec fn current_mode_spec(m: Monitor) -> (i32, i32, i32) {
    match first_mode(m.modes@, true) {
        Some(md) => (md.width, md.height, md.refresh_rate),
        None => (0, 0, 60),
    }
}

pub open spec fn hypr_transform_char(t: Transform) -> char {
    match t {
        Transform::Normal => '0',
        Transform::Rotate90 => '1',
        Transform::Rotate180 => '2',
        Transform::Rotate270 => '3',
        Transform::Flipped => '4',
        Transform::Flipped90 => '5',
        Transform::Flipped180 => '6',
        Transform::Flipped270 => '7',
    }
}

pub open spec fn sway_transform_text(t: Transform) -> Seq<char> {
    match t {
        Transform::Normal => "normal"@,
        Transform::Rotate90 => "90"@,
        Transform::Rotate180 => "180"@,
        Transform::Rotate270 => "270"@,
        Transform::Flipped => "flipped"@,
        Transform::Flipped90 => "flipped-90"@,
        Transform::Flipped180 => "flipped-180"@,
        Transform::Flipped270 => "flipped-270"@,
    }
}

/// `<w>x<h>@<refresh>`
pub open spec fn mode_text(m: Monitor) -> Seq<char> {
    let md = current_mode_spec(m);
    int_text(md.0 as int) + "x"@ + int_text(md.1 as int) + "@"@ + int_text(md.2 as int)
}

/// `monitor = <name>, <w>x<h>@<r>, <x>x<y>, <scale>[, transform, <t>]`
pub open spec fn hypr_monitor_line(m: Monitor) -> Seq<char> {
    "monitor = "@ + m.name@ + ", "@ + mode_text(m) + ", "@ + int_text(m.x as int) + "x"@ + int_text(
        m.y as int,
    ) + ", "@ + scale_text(m.scale) + if m.transform != Transform::Normal {
        ", transform, "@ + seq![hypr_transform_char(m.transform)]
    } else {
        Seq::empty()
    }
}

/// The lines for one output, each ending in a newline: its directive, and a
/// disable directive after it when it is off.
pub open spec fn hypr_monitor_text(m: Monitor) -> Seq<char> {
    hypr_monitor_line(m) + "\n"@ + if !m.enabled {
        "monitor = "@ + m.name@ + ", disable\n"@
    } else {
        Seq::empty()
    }
}

pub open spec fn hypr_monitors_text(ms: Seq<Monitor>) -> Seq<char>
    decreases ms.len(),
{
    if ms.len() == 0 {
        Seq::empty()
    } else {
        hypr_monitors_text(ms.drop_last()) + hypr_monitor_text(ms.last())
    }
}

/// `workspace = <id>, monitor:<name>[,default:true][,persistent:true]` and a newline.
pub open spec fn hypr_workspace_text(w: (usize, Seq<char>, bool, bool)) -> Seq<char> {
    "workspace = "@ + nat_text(w.0 as nat) + ", monitor:"@ + w.1 + (if w.2 {
        ",default:true"@
    } else {
        Seq::empty()
    }) + (if w.3 {
        ",persistent:true"@
    } else {
        Seq::empty()
    }) + "\n"@
}

pub open spec fn hypr_workspaces_text(ws: Seq<(usize, Seq<char>, bool, bool)>) -> Seq<char>
    decreases ws.len(),
{
    if ws.len() == 0 {
        Seq::empty()
    } else {
        hypr_workspaces_text(ws.drop_last()) + hypr_workspace_text(ws.last())
    }
}

/// Hyprland text: the output lines, then a blank line and the workspace rules.
pub open spec fn hypr_config_text(ms: Seq<Monitor>, ws: Seq<(usize, Seq<char>, bool, bool)>) -> Seq<char> {
    hypr_monitors_text(ms) + if ws.len() > 0 {
        "\n"@ + hypr_workspaces_text(ws)
    } else {
        Seq::empty()
    }
}

/// `output <name> disable`, or a block with mode, position, scale and transform.
pub open spec fn sway_monitor_block(m: Monitor) -> Seq<char> {
    if !m.enabled {
        "output "@ + m.name@ + " disable"@
    } else {
        "output "@ + m.name@ + " {\n    mode "@ + mode_text(m) + "Hz\n    pos "@ + int_text(m.x as int)
            + " "@ + int_text(m.y as int) + "\n    scale "@ + scale_text(m.scale)
            + "\n    transform "@ + sway_transform_text(m.transform) + "\n}"@
    }
}

pub open spec fn sway_monitors_text(ms: Seq<Monitor>) -> Seq<char>
    decreases ms.len(),
{
    if ms.len() == 0 {
        Seq::empty()
    } else {
        sway_monitors_text(ms.drop_last()) + sway_monitor_block(ms.last()) + "\n\n"@
    }
}

pub open spec fn sway_workspace_line(w: (usize, Seq<char>, bool, bool)) -> Seq<char> {
    "workspace "@ + nat_text(w.0 as nat) + " output "@ + w.1
}

/// The workspace lines joined by newlines.
pub open spec fn sway_workspace_lines(ws: Seq<(usize, Seq<char>, bool, bool)>) -> Seq<char>
    decreases ws.len(),
{
    if ws.len() == 0 {
        Seq::empty()
    } else if ws.len() == 1 {
        sway_workspace_line(ws[0])
    } else {
        sway_workspace_lines(ws.drop_last()) + "\n"@ + sway_workspace_line(ws.last())
    }
}

/// Sway text: blocks separated by blank lines, the workspace lines last.
pub open spec fn sway_config_text(ms: Seq<Monitor>, ws: Seq<(usize, Seq<char>, bool, bool)>) -> Seq<char> {
    sway_monitors_text(ms) + if ws.len() > 0 {
        sway_workspace_lines(ws) + "\n\n"@
    } else {
        Seq::empty()
    }
}

pub open spec fn river_monitor_line(m: Monitor) -> Seq<char> {
    if !m.enabled {
        "wlr-randr --output "@ + m.name@ + " --off"@
    } else {
        "wlr-randr --output "@ + m.name@ + " --mode "@ + mode_text(m) + "Hz --pos "@ + int_text(
            m.x as int,
        ) + ","@ + int_text(m.y as int) + " --scale "@ + scale_text(m.scale) + " --transform "@
            + sway_transform_text(m.transform)
    }
}

pub open spec fn river_monitors_text(ms: Seq<Monitor>) -> Seq<char>
    decreases ms.len(),
{
    if ms.len() == 0 {
        Seq::empty()
    } else {
        river_monitors_text(ms.drop_last()) + river_monitor_line(ms.last()) + "\n"@
    }
}

/// River has no config of its own: a shell script of `wlr-randr` calls.
pub open spec fn river_config_text(ms: Seq<Monitor>) -> Seq<char> {
    "#!/bin/sh\n"@ + river_monitors_text(ms)
}

pub open spec fn header_text() -> Seq<char> {
    "# This file is managed by xwlm. Do not edit manually.\n\n"@
}

/// The whole file for a dialect, header first; none for an unknown compositor.
pub open spec fn config_file_spec(c: Compositor, ms: Seq<Monitor>, ws: Seq<(usize, Seq<char>, bool, bool)>) -> Option<
    Seq<char>,
> {
    match c {
        Compositor::Hyprland => Some(header_text() + hypr_config_text(ms, ws)),
        Compositor::Sway => Some(header_text() + sway_config_text(ms, ws)),
        Compositor::River => Some(header_text() + river_config_text(ms)),
        Compositor::Unknown => None,
    }
}

/// Appends the scale text of `c` hundredths.
pub fn push_scale(out: &mut Vec<char>, c: u32)
    ensures
        final(out)@ == old(out)@ + scale_text(c),
{
    push_nat(out, (c / 100) as u64);
    proof {
        reveal_strlit(".");
    }
    if c % 100 != 0 {
        out.push('.');
        let f = (c % 100) as u64;
        push_nat_digit(out, f / 10);
        push_nat_digit(out, f % 10);
        assert(two_digits((c % 100) as nat) == seq![digit_char((f / 10) as nat), digit_char((f % 10) as nat)]);
        assert(out@ =~= old(out)@ + scale_text(c));
    }
}

fn push_nat_digit(out: &mut Vec<char>, d: u64)
    requires
        d < 10,
    ensures
        final(out)@ == old(out)@.push(digit_char(d as nat)),
{
    let ghost before = out@;
    push_nat(out, d);
    assert(nat_text(d as nat) == seq![digit_char(d as nat)]);
}

/// The current mode's width, height and refresh rate.
pub fn current_mode(monitor: &Monitor) -> (r: (i32, i32, i32))
    ensures
        r == current_mode_spec(*monitor),
{
    match find_mode(&monitor.modes, true) {
        Some(md) => (md.width, md.height, md.refresh_rate),
        None => (0, 0, 60),
    }
}

/// Hyprland's number for a transform.
pub fn transform_to_hyprland(t: Transform) -> (r: char)
    ensures
        r == hypr_transform_char(t),
{
    match t {
        Transform::Normal => '0',
        Transform::Rotate90 => '1',
        Transform::Rotate180 => '2',
        Transform::Rotate270 => '3',
        Transform::Flipped => '4',
        Transform::Flipped90 => '5',
        Transform::Flipped180 => '6',
        Transform::Flipped270 => '7',
    }
}

/// Sway's (and wlr-randr's) name for a transform.
pub fn transform_to_sway(t: Transform) -> (r: &'static str)
    ensures
        r@ == sway_transform_text(t),
{
    match t {
        Transform::Normal => "normal",
        Transform::Rotate90 => "90",
        Transform::Rotate180 => "180",
        Transform::Rotate270 => "270",
        Transform::Flipped => "flipped",
        Transform::Flipped90 => "flipped-90",
        Transform::Flipped180 => "flipped-180",
        Transform::Flipped270 => "flipped-270",
    }
}

fn push_mode(out: &mut Vec<char>, m: &Monitor)
    ensures
        final(out)@ == old(out)@ + mode_text(*m),
{
    let (w, h, r) = current_mode(m);
    push_int(out, w as i64);
    push_str(out, "x");
    push_int(out, h as i64);
    push_str(out, "@");
    push_int(out, r as i64);
    assert(out@ =~= old(out)@ + mode_text(*m));
}

fn push_hypr_monitor(out: &mut Vec<char>, m: &Monitor)
    ensures
        final(out)@ == old(out)@ + hypr_monitor_text(*m),
{
    let name = chars_of(m.name.as_str());
    push_str(out, "monitor = ");
    push_chars(out, name.as_slice());
    push_str(out, ", ");
    push_mode(out, m);
    push_str(out, ", ");
    push_int(out, m.x as i64);
    push_str(out, "x");
    push_int(out, m.y as i64);
    push_str(out, ", ");
    push_scale(out, m.scale);
    let ghost mid = out@;
    if m.transform != Transform::Normal {
        push_str(out, ", transform, ");
        out.push(transform_to_hyprland(m.transform));
    }
    assert(out@ =~= old(out)@ + hypr_monitor_line(*m));
    push_str(out, "\n");
    let ghost line_done = out@;
    if !m.enabled {
        push_str(out, "monitor = ");
        push_chars(out, name.as_slice());
        push_str(out, ", disable\n");
    }
    assert(out@ =~= old(out)@ + hypr_monitor_text(*m));
}

fn push_hypr_workspace(out: &mut Vec<char>, w: &WorkspaceRule)
    ensures
        final(out)@ == old(out)@ + hypr_workspace_text(w@),
{
    let name = chars_of(w.monitor.as_str());
    push_str(out, "workspace = ");
    push_nat(out, w.id as u64);
    push_str(out, ", monitor:");
    push_chars(out, name.as_slice());
    let ghost a = out@;
    if w.is_default {
        push_str(out, ",default:true");
    }
    let ghost b = out@;
    if w.is_persistent {
        push_str(out, ",persistent:true");
    }
    push_str(out, "\n");
    assert(out@ =~= old(out)@ + hypr_workspace_text(w@));
}

/// The Hyprland text for these outputs and rules.
pub fn format_hyprland(monitors: &[Monitor], workspaces: &[WorkspaceRule]) -> (r: Vec<char>)
    ensures
        r@ == hypr_config_text(monitors@, rules_view(workspaces@)),
{
    let mut out: Vec<char> = Vec::new();
    let mut i: usize = 0;
    while i < monitors.len()
        invariant
            i <= monitors@.len(),
            out@ == hypr_monitors_text(monitors@.subrange(0, i as int)),
        decreases monitors@.len() - i,
    {
        push_hypr_monitor(&mut out, &monitors[i]);
        assert(monitors@.subrange(0, i + 1).drop_last() =~= monitors@.subrange(0, i as int));
        i = i + 1;
    }
    assert(monitors@.subrange(0, i as int) =~= monitors@);
    let ghost rv = rules_view(workspaces@);
    if workspaces.len() > 0 {
        let ghost before = out@;
        push_str(&mut out, "\n");
        let ghost mid = out@;
        let mut j: usize = 0;
        while j < workspaces.len()
            invariant
                j <= workspaces@.len(),
                rv == rules_view(workspaces@),
                out@ == mid + hypr_workspaces_text(rv.subrange(0, j as int)),
            decreases workspaces@.len() - j,
        {
            push_hypr_workspace(&mut out, &workspaces[j]);
            assert(rv.subrange(0, j + 1).drop_last() =~= rv.subrange(0, j as int));
            assert(rv.subrange(0, j + 1).last() == workspaces@[j as int]@);
            assert(out@ =~= mid + hypr_workspaces_text(rv.subrange(0, j + 1)));
            j = j + 1;
        }
        assert(rv.subrange(0, j as int) =~= rv);
        assert(out@ =~= hypr_config_text(monitors@, rv));
    } else {
        assert(out@ =~= hypr_config_text(monitors@, rules_view(workspaces@)));
    }
    out
}

fn push_sway_monitor(out: &mut Vec<char>, m: &Monitor)
    ensures
        final(out)@ == old(out)@ + sway_monitor_block(*m),
{
    let name = chars_of(m.name.as_str());
    push_str(out, "output ");
    push_chars(out, name.as_slice());
    if !m.enabled {
        push_str(out, " disable");
        assert(out@ =~= old(out)@ + sway_monitor_block(*m));
        return;
    }
    push_str(out, " {\n    mode ");
    push_mode(out, m);
    push_str(out, "Hz\n    pos ");
    push_int(out, m.x as i64);
    push_str(out, " ");
    push_int(out, m.y as i64);
    push_str(out, "\n    scale ");
    push_scale(out, m.scale);
    push_str(out, "\n    transform ");
    push_str(out, transform_to_sway(m.transform));
    push_str(out, "\n}");
    assert(out@ =~= old(out)@ + sway_monitor_block(*m));
}

/// The Sway text for these outputs and rules.
pub fn format_sway(monitors: &[Monitor], workspaces: &[WorkspaceRule]) -> (r: Vec<char>)
    ensures
        r@ == sway_config_text(monitors@, rules_view(workspaces@)),
{
    let mut out: Vec<char> = Vec::new();
    let mut i: usize = 0;
    while i < monitors.len()
        invariant
            i <= monitors@.len(),
            out@ == sway_monitors_text(monitors@.subrange(0, i as int)),
        decreases monitors@.len() - i,
    {
        push_sway_monitor(&mut out, &monitors[i]);
        push_str(&mut out, "\n\n");
        assert(monitors@.subrange(0, i + 1).drop_last() =~= monitors@.subrange(0, i as int));
        i = i + 1;
    }
    assert(monitors@.subrange(0, i as int) =~= monitors@);
    let ghost mid = out@;
    let ghost rv = rules_view(workspaces@);
    let mut j: usize = 0;
    while j < workspaces.len()
        invariant
            j <= workspaces@.len(),
            rv == rules_view(workspaces@),
            out@ == mid + sway_workspace_lines(rv.subrange(0, j as int)),
        decreases workspaces@.len() - j,
    {
        if j > 0 {
            push_str(&mut out, "\n");
        }
        let name = chars_of(workspaces[j].monitor.as_str());
        push_str(&mut out, "workspace ");
        push_nat(&mut out, workspaces[j].id as u64);
        push_str(&mut out, " output ");
        push_chars(&mut out, name.as_slice());
        let ghost ws1 = rv.subrange(0, j + 1);
        assert(ws1.drop_last() =~= rv.subrange(0, j as int));
        assert(ws1.last() == workspaces@[j as int]@);
        assert(ws1.len() == 1 ==> ws1[0] == workspaces@[j as int]@);
        assert(out@ =~= mid + sway_workspace_lines(ws1));
        j = j + 1;
    }
    assert(rv.subrange(0, j as int) =~= rv);
    if workspaces.len() > 0 {
        push_str(&mut out, "\n\n");
    }
    assert(out@ =~= sway_config_text(monitors@, rv));
    out
}

/// The River start-up script for these outputs.
pub fn format_river(monitors: &[Monitor]) -> (r: Vec<char>)
    ensures
        r@ == river_config_text(monitors@),
{
    let mut out: Vec<char> = Vec::new();
    push_str(&mut out, "#!/bin/sh\n");
    let ghost head = out@;
    let mut i: usize = 0;
    while i < monitors.len()
        invariant
            i <= monitors@.len(),
            out@ == head + river_monitors_text(monitors@.subrange(0, i as int)),
        decreases monitors@.len() - i,
    {
        let m = &monitors[i];
        let ghost before = out@;
        let name = chars_of(m.name.as_str());
        push_str(&mut out, "wlr-randr --output ");
        push_chars(&mut out, name.as_slice());
        if !m.enabled {
            push_str(&mut out, " --off");
        } else {
            push_str(&mut out, " --mode ");
            push_mode(&mut out, m);
            push_str(&mut out, "Hz --pos ");
            push_int(&mut out, m.x as i64);
            push_str(&mut out, ",");
            push_int(&mut out, m.y as i64);
            push_str(&mut out, " --scale ");
            push_scale(&mut out, m.scale);
            push_str(&mut out, " --transform ");
            push_str(&mut out, transform_to_sway(m.transform));
        }
        assert(out@ =~= before + river_monitor_line(*m));
        push_str(&mut out, "\n");
        assert(monitors@.subrange(0, i + 1).drop_last() =~= monitors@.subrange(0, i as int));
        assert(out@ =~= head + river_monitors_text(monitors@.subrange(0, i + 1)));
        i = i + 1;
    }
    assert(monitors@.subrange(0, i as int) =~= monitors@);
    out
}

/// The full config file for a dialect (header comment, blank line, content),
/// or `None` for a compositor without one.
pub fn format_monitor_config(
    compositor: Compositor,
    monitors: &[Monitor],
    workspaces: &[WorkspaceRule],
) -> (r: Option<String>)
    ensures
        match r {
            Some(s) => config_file_spec(compositor, monitors@, rules_view(workspaces@)) == Some(s@),
            None => config_file_spec(compositor, monitors@, rules_view(workspaces@)) is None,
        },
{
    let body = match compositor {
        Compositor::Hyprland => format_hyprland(monitors, workspaces),
        Compositor::Sway => format_sway(monitors, workspaces),
        Compositor::River => format_river(monitors),
        Compositor::Unknown => {
            return None;
        },
    };
    let mut out: Vec<char> = Vec::new();
    push_str(&mut out, "# This file is managed by xwlm. Do not edit manually.\n\n");
    push_chars(&mut out, body.as_slice());
    Some(string_of(out.as_slice()))
}

} // verus!
