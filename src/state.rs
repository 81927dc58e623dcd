//! The arrangement: the outputs the compositor reports, pending position and
//! workspace edits laid over them, and the collision rules for moving and
//! enabling outputs. Commands for the compositor are returned, not sent.
use vstd::prelude::*;

use crate::compositor::Compositor;
use crate::format::format_monitor_config;
use crate::output::{dims_spec, effective_dimensions, transform_from_index, transform_index, Monitor, Transform};
use crate::parse::{get_saved_monitor_position, saved_position_spec, SavedPosition};
use crate::workspace_config::{parse_workspace_config, WorkspaceRule};

verus! {

broadcast use vstd::string::group_string_axioms;

/// Moves that come closer together than this (in milliseconds) in the same
/// direction accelerate.
pub const REPEAT_WINDOW_MS: u64 = 200;

#[derive(Debug, Clone, Copy, PartialEq, Eq, Structural)]
pub enum Panel {
    Monitor,
    Mode,
    Workspace,
    Scale,
    Transform,
}

#[derive(Debug, Clone, Copy, PartialEq, Eq, Structural)]
pub enum PositionDirection {
    Left,
    Right,
    Up,
    Down,
}

/// A workspace and the output it is bound to (an index into the output list).
#[derive(Debug, Clone, Copy, PartialEq, Eq, Structural)]
pub struct WorkspaceAssignment {
    pub id: usize,
    pub monitor_idx: Option<usize>,
    pub is_default: bool,
    pub is_persistent: bool,
}

/// A command for the compositor.
#[derive(Debug, Clone, PartialEq)]
pub enum MonitorAction {
    Toggle { name: String, mode: Option<(i32, i32, i32)>, position: Option<(i32, i32)> },
    SwitchMode { name: String, width: i32, height: i32, refresh_rate: i32 },
    SetScale { name: String, scale: u32 },
    SetTransform { name: String, transform: Transform },
    SetPosition { name: String, x: i32, y: i32 },
}

pub struct App {
    pub monitors: Vec<Monitor>,
    pub selected_monitor: usize,
    pub panel: Panel,
    pub compositor: Compositor,
    pub workspace_assignments: Vec<WorkspaceAssignment>,
    pub comp_monitor_config_path: String,
    pub needs_save: bool,
    /// Pending position of each output, by index.
    pub pending_positions: Vec<Option<(i32, i32)>>,
    /// Pending edit of each workspace, by index.
    pub pending_workspaces: Vec<Option<WorkspaceAssignment>>,
    /// Scale being chosen, in hundredths.
    pub pending_scale: u32,
    /// Zoom of the layout map, in tenths.
    pub map_zoom: u32,
    pub transform_selected: Option<usize>,
    pub mode_selected: Option<usize>,
    pub workspace_selected: Option<usize>,
    pub pending_last_toggle_monitor: bool,
    pub error_message: Option<String>,
    pub last_move_time: u64,
    pub move_repeat_count: u32,
    pub last_move_direction: Option<PositionDirection>,
    pub initial_workspaces: Option<Vec<WorkspaceRule>>,
}

/// Half-open rectangles `[x, x+w) × [y, y+h)` that share interior points.
pub open spec fn rects_overlap(a: (int, int), asz: (int, int), b: (int, int), bsz: (int, int)) -> bool {
    a.0 < b.0 + bsz.0 && a.0 + asz.0 > b.0 && a.1 < b.1 + bsz.1 && a.1 + asz.1 > b.1
}

pub open spec fn dims_int(m: Monitor) -> (int, int) {
    (dims_spec(m).0 as int, dims_spec(m).1 as int)
}

pub open spec fn pos_int(p: (i32, i32)) -> (int, int) {
    (p.0 as int, p.1 as int)
}

/// An enabled output whose name is not `ex`.
pub open spec fn is_other(m: Monitor, ex: Seq<char>) -> bool {
    m.enabled && m.name@ != ex
}

/// Whether a rectangle overlaps the committed rectangle of an enabled output
/// not named `ex`.
pub open spec fn overlaps_any(ms: Seq<Monitor>, ex: Seq<char>, pos: (int, int), size: (int, int)) -> bool {
    exists|i: int|
        0 <= i < ms.len() && is_other(#[trigger] ms[i], ex) && rects_overlap(
            pos,
            size,
            (ms[i].x as int, ms[i].y as int),
            dims_int(ms[i]),
        )
}

/// Whether any enabled output not named `ex` exists, and the leftmost edge,
/// rightmost edge, top and bottom among them.
pub open spec fn extremes(ms: Seq<Monitor>, ex: Seq<char>) -> (bool, int, int, int, int)
    decreases ms.len(),
{
    if ms.len() == 0 {
        (false, 0, 0, 0, 0)
    } else {
        let e = extremes(ms.drop_last(), ex);
        let m = ms.last();
        if is_other(m, ex) {
            let l = m.x as int;
            let r = m.x + dims_int(m).0;
            let t = m.y as int;
            let b = m.y + dims_int(m).1;
            if !e.0 {
                (true, l, r, t, b)
            } else {
                (
                    true,
                    if l < e.1 {
                        l
                    } else {
                        e.1
                    },
                    if r > e.2 {
                        r
                    } else {
                        e.2
                    },
                    if t < e.3 {
                        t
                    } else {
                        e.3
                    },
                    if b > e.4 {
                        b
                    } else {
                        e.4
                    },
                )
            }
        } else {
            e
        }
    }
}

pub open spec fn clamp_i32(v: int) -> i32 {
    if v < i32::MIN {
        i32::MIN
    } else if v > i32::MAX {
        i32::MAX
    } else {
        v as i32
    }
}

pub open spec fn abs_int(v: int) -> int {
    if v < 0 {
        -v
    } else {
        v
    }
}

pub open spec fn distance(a: (i32, i32), b: (i32, i32)) -> int {
    abs_int(a.0 - b.0) + abs_int(a.1 - b.1)
}

/// Among the candidates that overlap nothing, the first one nearest `pref`.
pub open spec fn pick_candidate(
    ms: Seq<Monitor>,
    ex: Seq<char>,
    cands: Seq<(i32, i32)>,
    pref: (i32, i32),
    size: (int, int),
) -> Option<(i32, i32)>
    decreases cands.len(),
{
    if cands.len() == 0 {
        None
    } else {
        let prev = pick_candidate(ms, ex, cands.drop_last(), pref, size);
        let c = cands.last();
        if overlaps_any(ms, ex, pos_int(c), size) {
            prev
        } else {
            match prev {
                None => Some(c),
                Some(q) => if distance(c, pref) < distance(q, pref) {
                    Some(c)
                } else {
                    Some(q)
                },
            }
        }
    }
}

/// The four slots around the other enabled outputs: left of the leftmost,
/// right of the rightmost, above the topmost, below the bottommost.
pub open spec fn candidates(e: (bool, int, int, int, int), size: (int, int)) -> Seq<(i32, i32)> {
    seq![
        (clamp_i32(e.1 - size.0), 0i32),
        (clamp_i32(e.2), 0i32),
        (0i32, clamp_i32(e.3 - size.1)),
        (0i32, clamp_i32(e.4)),
    ]
}

/// Where an output of `size` goes when its saved position `pref` overlaps
/// another: the nearest free slot, else right of the rightmost.
pub open spec fn closest_spec(ms: Seq<Monitor>, ex: Seq<char>, pref: (i32, i32), size: (int, int)) -> (
    i32,
    i32,
) {
    let e = extremes(ms, ex);
    if !e.0 {
        pref
    } else {
        match pick_candidate(ms, ex, candidates(e, size), pref, size) {
            Some(p) => p,
            None => (clamp_i32(e.2), 0),
        }
    }
}

/// Where an output without a saved position goes: right of the rightmost.
pub open spec fn right_of_all_spec(ms: Seq<Monitor>, ex: Seq<char>) -> (i32, i32) {
    let e = extremes(ms, ex);
    if !e.0 {
        (0, 0)
    } else {
        (clamp_i32(e.2), 0)
    }
}

/// The position an output gets when it is enabled.
pub open spec fn enable_position_spec(
    ms: Seq<Monitor>,
    ex: Seq<char>,
    saved: Option<SavedPosition>,
    size: (int, int),
) -> (i32, i32) {
    match saved {
        Some(p) => if overlaps_any(ms, ex, (p.x as int, p.y as int), size) {
            closest_spec(ms, ex, (p.x, p.y), size)
        } else {
            (p.x, p.y)
        },
        None => right_of_all_spec(ms, ex),
    }
}

pub open spec fn count_enabled(ms: Seq<Monitor>) -> nat
    decreases ms.len(),
{
    if ms.len() == 0 {
        0
    } else {
        count_enabled(ms.drop_last()) + if ms.last().enabled {
            1nat
        } else {
            0nat
        }
    }
}

pub open spec fn ref_valid(r: Option<usize>, n: int) -> bool {
    match r {
        Some(i) => i < n,
        None => true,
    }
}

/// Every workspace binding, committed or pending, names an existing output.
pub open spec fn workspace_refs_valid(
    ws: Seq<WorkspaceAssignment>,
    pending: Seq<Option<WorkspaceAssignment>>,
    n: int,
) -> bool {
    &&& forall|i: int| 0 <= i < ws.len() ==> ref_valid((#[trigger] ws[i]).monitor_idx, n)
    &&& forall|i: int|
        0 <= i < pending.len() ==> match #[trigger] pending[i] {
            Some(w) => ref_valid(w.monitor_idx, n),
            None => true,
        }
}

/// The outputs not named `name`, in order.
pub open spec fn monitors_without(ms: Seq<Monitor>, name: Seq<char>) -> Seq<Monitor>
    decreases ms.len(),
{
    if ms.len() == 0 {
        Seq::empty()
    } else {
        monitors_without(ms.drop_last(), name) + if ms.last().name@ == name {
            Seq::empty()
        } else {
            seq![ms.last()]
        }
    }
}

/// The pending positions of the outputs not named `name`, in order.
pub open spec fn pending_without(
    ms: Seq<Monitor>,
    ps: Seq<Option<(i32, i32)>>,
    name: Seq<char>,
) -> Seq<Option<(i32, i32)>>
    decreases ms.len(),
{
    if ms.len() == 0 || ps.len() < ms.len() {
        Seq::empty()
    } else {
        pending_without(ms.drop_last(), ps.subrange(0, ms.len() - 1), name) + if ms.last().name@
            == name {
            Seq::empty()
        } else {
            seq![ps[ms.len() - 1]]
        }
    }
}

/// The direction step: 1, then 3, 5, ... for each repeated move.
pub open spec fn step_spec(count: u32) -> int {
    1 + 2 * count
}

pub open spec fn clamp_pos(v: int) -> i32 {
    if v < 0 {
        0
    } else if v > i32::MAX {
        i32::MAX
    } else {
        v as i32
    }
}

/// Where a move of `step` in `dir` takes `cur`, kept at non-negative coordinates.
pub open spec fn moved_spec(cur: (i32, i32), dir: PositionDirection, step: int) -> (i32, i32) {
    match dir {
        PositionDirection::Left => (clamp_pos(cur.0 - step), clamp_pos(cur.1 as int)),
        PositionDirection::Right => (clamp_pos(cur.0 + step), clamp_pos(cur.1 as int)),
        PositionDirection::Up => (clamp_pos(cur.0 as int), clamp_pos(cur.1 - step)),
        PositionDirection::Down => (clamp_pos(cur.0 as int), clamp_pos(cur.1 + step)),
    }
}

/// The new positions of the moved output and the one it ran into: they trade
/// sides along the axis of the move.
pub open spec fn swap_spec(
    dir: PositionDirection,
    cur: (i32, i32),
    other: (i32, i32),
    sel_size: (int, int),
    other_size: (int, int),
) -> ((i32, i32), (i32, i32)) {
    match dir {
        PositionDirection::Left => (
            (clamp_pos(other.0 as int), clamp_pos(other.1 as int)),
            (clamp_pos(other.0 + sel_size.0), clamp_pos(other.1 as int)),
        ),
        PositionDirection::Right => (
            (clamp_pos(cur.0 + other_size.0), clamp_pos(cur.1 as int)),
            (clamp_pos(cur.0 as int), clamp_pos(cur.1 as int)),
        ),
        PositionDirection::Up => (
            (clamp_pos(other.0 as int), clamp_pos(other.1 as int)),
            (clamp_pos(other.0 as int), clamp_pos(other.1 + sel_size.1)),
        ),
        PositionDirection::Down => (
            (clamp_pos(cur.0 as int), clamp_pos(cur.1 + other_size.1)),
            (clamp_pos(cur.0 as int), clamp_pos(cur.1 as int)),
        ),
    }
}

/// What `move_monitor(direction)` at `now_ms` does to the repeat state and
/// the pending positions.
pub open spec fn move_effect(old: App, new: App, direction: PositionDirection, now_ms: u64) -> bool {

                let sel = old.selected_monitor as int;
                let ms = old.monitors@;
                if sel >= ms.len() || !ms[sel].enabled {
                    new.pending_positions == old.pending_positions
                } else {
                    let count = new.move_repeat_count;
                    let cur = old.display_spec(sel);
                    let size = dims_int(ms[sel]);
                    let target = moved_spec(cur, direction, step_spec(count));
                    &&& count == if now_ms >= old.last_move_time && now_ms
                        - old.last_move_time < REPEAT_WINDOW_MS
                        && old.last_move_direction == Some(direction) {
                        if old.move_repeat_count < u32::MAX {
                            (old.move_repeat_count + 1) as u32
                        } else {
                            u32::MAX
                        }
                    } else {
                        0u32
                    }
                    &&& new.last_move_time == now_ms
                    &&& new.last_move_direction == Some(direction)
                    &&& match old.first_hit(sel, target, size) {
                        None => new.pending_positions@ == old.pending_positions@.update(sel, Some(target)),
                        Some(o) => {
                            let sw = swap_spec(
                                direction,
                                cur,
                                old.display_spec(o as int),
                                size,
                                dims_int(ms[o as int]),
                            );
                            new.pending_positions@ == old.pending_positions@.update(sel, Some(sw.0)).update(o as int, Some(sw.1))
                        },
                    }
                }
}

/// The position commands for the pending positions: output name, x, y, in index order.
pub open spec fn position_commands(ms: Seq<Monitor>, ps: Seq<Option<(i32, i32)>>) -> Seq<(Seq<char>, i32, i32)>
    decreases ms.len(),
{
    if ms.len() == 0 {
        Seq::empty()
    } else {
        position_commands(ms.drop_last(), ps) + match ps[ms.len() - 1] {
            Some(p) => seq![(ms.last().name@, p.0, p.1)],
            None => Seq::empty(),
        }
    }
}

pub open spec fn is_set_position(a: MonitorAction, c: (Seq<char>, i32, i32)) -> bool {
    a matches MonitorAction::SetPosition { name, x, y } && name@ == c.0 && x == c.1 && y == c.2
}

/// `w` with its default flag cleared when it is the default of `target`.
pub open spec fn cleared_default(w: WorkspaceAssignment, target: Option<usize>) -> WorkspaceAssignment {
    if target is Some && w.is_default && w.monitor_idx == target {
        WorkspaceAssignment { is_default: false, ..w }
    } else {
        w
    }
}

/// What `cycle_workspace_monitor(forward)` does to the pending workspace edits.
pub open spec fn cycle_effect(old: App, new: App, forward: bool) -> bool {

                let n = old.monitors@.len();
                match old.workspace_selected {
                    Some(ws) => match old.effective_workspace_spec(ws as int) {
                        Some(eff) => if n == 0 {
                            new.pending_workspaces == old.pending_workspaces
                        } else {
                            let next = match eff.monitor_idx {
                                None => if forward { Some(0usize) } else { Some((n - 1) as usize) },
                                Some(idx) => if idx >= n {
                                    if forward { Some(0usize) } else { Some((n - 1) as usize) }
                                } else if forward {
                                    if idx + 1 >= n { None } else { Some((idx + 1) as usize) }
                                } else if idx == 0 {
                                    None
                                } else {
                                    Some((idx - 1) as usize)
                                },
                            };
                            new.pending_workspaces@ == old.pending_workspaces@.update(
                                ws as int,
                                Some(WorkspaceAssignment { monitor_idx: next, ..eff }),
                            )
                        },
                        None => new.pending_workspaces == old.pending_workspaces,
                    },
                    None => new.pending_workspaces == old.pending_workspaces,
                }
}

impl App {
    /// The overlays stay parallel to the lists they overlay, and every
    /// workspace binding names an existing output.
    pub open spec fn wf(&self) -> bool {
        &&& self.pending_positions@.len() == self.monitors@.len()
        &&& self.pending_workspaces@.len() == self.workspace_assignments@.len()
        &&& workspace_refs_valid(
            self.workspace_assignments@,
            self.pending_workspaces@,
            self.monitors@.len() as int,
        )
    }

    /// Pending position if there is one, else the committed one; (0, 0) out of range.
    pub open spec fn display_spec(&self, idx: int) -> (i32, i32) {
        if 0 <= idx < self.monitors@.len() {
            match self.pending_positions@[idx] {
                Some(p) => p,
                None => (self.monitors@[idx].x, self.monitors@[idx].y),
            }
        } else {
            (0, 0)
        }
    }

    /// Whether output `i` is an enabled output other than `sel` whose displayed
    /// rectangle meets a rectangle of `size` at `pos`.
    pub open spec fn hits(&self, sel: int, pos: (i32, i32), size: (int, int), i: int) -> bool {
        0 <= i < self.monitors@.len() && i != sel && self.monitors@[i].enabled && rects_overlap(
            pos_int(pos),
            size,
            pos_int(self.display_spec(i)),
            dims_int(self.monitors@[i]),
        )
    }

    pub open spec fn is_first_hit(&self, sel: int, pos: (i32, i32), size: (int, int), i: int) -> bool {
        self.hits(sel, pos, size, i) && forall|j: int| 0 <= j < i ==> !self.hits(sel, pos, size, j)
    }

    /// The first output, by index, that a move to `pos` runs into.
    pub open spec fn first_hit(&self, sel: int, pos: (i32, i32), size: (int, int)) -> Option<usize> {
        if exists|i: int| self.hits(sel, pos, size, i) {
            Some((choose|i: int| self.is_first_hit(sel, pos, size, i)) as usize)
        } else {
            None
        }
    }

    /// The committed bindings as rules over output names.
    pub open spec fn rules_spec(&self) -> Seq<(usize, Seq<char>, bool, bool)> {
        self.workspace_assignments@.map_values(
            |w: WorkspaceAssignment|
                (
                    w.id,
                    match w.monitor_idx {
                        Some(k) => if k < self.monitors@.len() {
                            self.monitors@[k as int].name@
                        } else {
                            Seq::empty()
                        },
                        None => Seq::empty(),
                    },
                    w.is_default,
                    w.is_persistent,
                ),
        )
    }

    pub open spec fn effective_workspace_spec(&self, idx: int) -> Option<WorkspaceAssignment> {
        if 0 <= idx < self.pending_workspaces@.len() && self.pending_workspaces@[idx] is Some {
            self.pending_workspaces@[idx]
        } else if 0 <= idx < self.workspace_assignments@.len() {
            Some(self.workspace_assignments@[idx])
        } else {
            None
        }
    }

    /// An arrangement with no outputs yet, workspaces 1 to `comp_workspace_count`
    /// unbound, and the workspace rules of the config text `config` kept to be
    /// bound once the outputs are known.
    pub fn new(
        compositor: Compositor,
        comp_monitor_config_path: String,
        config: &str,
        comp_workspace_count: usize,
    ) -> (r: App)
        ensures
            r.wf(),
            r.monitors@.len() == 0,
            r.compositor == compositor,
            r.workspace_assignments@.len() == comp_workspace_count,
            forall|i: int|
                0 <= i < comp_workspace_count ==> (#[trigger] r.workspace_assignments@[i]) == (
                WorkspaceAssignment {
                    id: (i + 1) as usize,
                    monitor_idx: None,
                    is_default: false,
                    is_persistent: false,
                }),
            r.initial_workspaces is Some,
            r.selected_monitor == 0,
            r.panel == Panel::Monitor,
            !r.needs_save,
            !r.pending_last_toggle_monitor,
    {
        let initial = parse_workspace_config(compositor, config);
        let mut workspace_assignments: Vec<WorkspaceAssignment> = Vec::new();
        let mut pending_workspaces: Vec<Option<WorkspaceAssignment>> = Vec::new();
        let mut i: usize = 0;
        while i < comp_workspace_count
            invariant
                i <= comp_workspace_count,
                workspace_assignments@.len() == i,
                pending_workspaces@.len() == i,
                forall|k: int| 0 <= k < i ==> (#[trigger] pending_workspaces@[k]) is None,
                forall|k: int|
                    0 <= k < i ==> (#[trigger] workspace_assignments@[k]) == (WorkspaceAssignment {
                        id: (k + 1) as usize,
                        monitor_idx: None,
                        is_default: false,
                        is_persistent: false,
                    }),
            decreases comp_workspace_count - i,
        {
            workspace_assignments.push(
                WorkspaceAssignment {
                    id: i + 1,
                    monitor_idx: None,
                    is_default: false,
                    is_persistent: false,
                },
            );
            pending_workspaces.push(None);
            i = i + 1;
        }
        App {
            monitors: Vec::new(),
            selected_monitor: 0,
            panel: Panel::Monitor,
            compositor,
            workspace_assignments,
            comp_monitor_config_path,
            needs_save: false,
            pending_positions: Vec::new(),
            pending_workspaces,
            pending_scale: 100,
            map_zoom: 10,
            transform_selected: Some(0),
            mode_selected: Some(0),
            workspace_selected: Some(0),
            pending_last_toggle_monitor: false,
            error_message: None,
            last_move_time: 0,
            move_repeat_count: 0,
            last_move_direction: None,
            initial_workspaces: Some(initial),
        }
    }

    /// Replaces the output list after a full resync: selection back to the
    /// first output, pending positions dropped, kept workspace rules bound by
    /// output name, and bindings to outputs that no longer exist cleared.
    pub fn set_monitors(&mut self, monitors: Vec<Monitor>)
        requires
            old(self).wf(),
        ensures
            final(self).wf(),
            final(self).monitors@ == monitors@,
            forall|i: int| 0 <= i < monitors@.len() ==> final(self).pending_positions@[i] is None,
            monitors@.len() > 0 ==> final(self).selected_monitor == 0,
            monitors@.len() == 0 ==> final(self).selected_monitor == old(self).selected_monitor,
            final(self).workspace_assignments@.len() == old(self).workspace_assignments@.len(),
            final(self).initial_workspaces is None,
            forall|i: int| 0 <= i < final(self).workspace_assignments@.len() ==> (#[trigger] final(self).workspace_assignments@[i]).id
                == old(self).workspace_assignments@[i].id,
            old(self).initial_workspaces is None ==> forall|i: int|
                0 <= i < final(self).workspace_assignments@.len() ==> (#[trigger] final(self).workspace_assignments@[i])
                    == if ref_valid(old(self).workspace_assignments@[i].monitor_idx, monitors@.len() as int) {
                    old(self).workspace_assignments@[i]
                } else {
                    WorkspaceAssignment { monitor_idx: None, ..old(self).workspace_assignments@[i] }
                },
    {
        let n = monitors.len();
        self.monitors = monitors;
        let mut pending: Vec<Option<(i32, i32)>> = Vec::new();
        let mut i: usize = 0;
        while i < n
            invariant
                i <= n,
                pending@.len() == i,
                forall|k: int| 0 <= k < i ==> (#[trigger] pending@[k]) is None,
            decreases n - i,
        {
            pending.push(None);
            i = i + 1;
        }
        self.pending_positions = pending;
        if n > 0 {
            self.selected_monitor = 0;
            self.mode_selected = Some(0);
            self.sync_panel_state();
        }
        self.resolve_initial_workspaces();
        self.validate_workspace_assignments();
    }

    /// Adds an output, or replaces the one with the same name.
    pub fn update_monitor(&mut self, monitor: Monitor)
        requires
            old(self).wf(),
        ensures
            final(self).wf(),
            old(self).monitors@.len() <= final(self).monitors@.len() <= old(self).monitors@.len() + 1,
            final(self).pending_positions@.subrange(0, old(self).monitors@.len() as int)
                == old(self).pending_positions@,
            final(self).workspace_assignments@ == old(self).workspace_assignments@,
            exists|i: int|
                0 <= i < final(self).monitors@.len() && #[trigger] final(self).monitors@[i]
                    == monitor,
            (forall|k: int| 0 <= k < old(self).monitors@.len() ==> (#[trigger] old(self).monitors@[k]).name@ != monitor.name@)
                ==> final(self).monitors@ == old(self).monitors@.push(monitor) && final(self).selected_monitor < final(self).monitors@.len(),
            forall|i: int|
                0 <= i < old(self).monitors@.len() && (#[trigger] old(self).monitors@[i]).name@ == monitor.name@
                    && (forall|k: int| 0 <= k < i ==> (#[trigger] old(self).monitors@[k]).name@ != monitor.name@)
                    ==> final(self).monitors@ == old(self).monitors@.update(i, monitor)
                    && final(self).selected_monitor == old(self).selected_monitor,
            old(self).selected_monitor < old(self).monitors@.len() ==> final(self).selected_monitor < final(self).monitors@.len(),
    {
        if let Some(i) = self.index_of(monitor.name.as_str()) {
            let ghost m = monitor;
            self.monitors.set(i, monitor);
            assert(self.monitors@[i as int] == m);
            assert forall|j: int|
                0 <= j < old(self).monitors@.len() && (#[trigger] old(self).monitors@[j]).name@ == m.name@
                    && (forall|k: int| 0 <= k < j ==> (#[trigger] old(self).monitors@[k]).name@ != m.name@)
                    implies j == i by {
                if j < i {
                } else if j > i {
                    assert(old(self).monitors@[i as int].name@ != m.name@);
                }
            }
            assert(self.pending_positions@.subrange(0, old(self).monitors@.len() as int)
                =~= old(self).pending_positions@);
            return;
        }
        let ghost m = monitor;
        self.monitors.push(monitor);
        self.pending_positions.push(None);
        assert(self.monitors@[self.monitors@.len() - 1] == m);
        assert(self.pending_positions@.subrange(0, old(self).monitors@.len() as int)
            =~= old(self).pending_positions@);
        self.sanitize_selection();
        assert(self.monitors@ =~= old(self).monitors@.push(m));
    }

    /// Removes the output with that name. Pending positions of later outputs
    /// move down with them; workspace bindings past the end are cleared.
    pub fn remove_monitor(&mut self, name: &str)
        requires
            old(self).wf(),
        ensures
            final(self).wf(),
            (exists|i: int|
                0 <= i < old(self).monitors@.len() && (#[trigger] old(self).monitors@[i]).name@
                    == name@) ==> final(self).monitors@.len() < old(self).monitors@.len(),
            forall|i: int|
                0 <= i < final(self).monitors@.len() ==> (#[trigger] final(self).monitors@[i]).name@
                    != name@,
            final(self).monitors@ == monitors_without(old(self).monitors@, name@),
            final(self).monitors@.len() == old(self).monitors@.len() ==> final(self).selected_monitor
                == old(self).selected_monitor,
            final(self).monitors@.len() < old(self).monitors@.len() ==> if final(self).monitors@.len() == 0 {
                final(self).selected_monitor == 0
            } else {
                final(self).selected_monitor < final(self).monitors@.len()
            },
            final(self).pending_positions@ == pending_without(
                old(self).monitors@,
                old(self).pending_positions@,
                name@,
            ),
    {
        let mut kept: Vec<Monitor> = Vec::new();
        let mut kept_pending: Vec<Option<(i32, i32)>> = Vec::new();
        let mut removed = false;
        let mut old_monitors: Vec<Monitor> = Vec::new();
        std::mem::swap(&mut old_monitors, &mut self.monitors);
        let ghost om = old_monitors@;
        let n = old_monitors.len();
        let mut i: usize = 0;
        while i < n
            invariant
                n == om.len(),
                old_monitors@.len() == om.len() - i,
                forall|k: int| 0 <= k < old_monitors@.len() ==> old_monitors@[k] == om[(n - old_monitors@.len()) + k],
                i <= n,
                self.pending_positions@.len() == n,
                kept@.len() == kept_pending@.len(),
                kept@.len() <= i,
                removed ==> kept@.len() < i,
                removed || kept@.len() == i,
                (exists|k: int| 0 <= k < i && (#[trigger] om[k]).name@ == name@) ==> removed,
                forall|k: int| 0 <= k < kept@.len() ==> (#[trigger] kept@[k]).name@ != name@,
                om == old(self).monitors@,
                self.pending_positions == old(self).pending_positions,
                kept@ == monitors_without(om.subrange(0, i as int), name@),
                kept_pending@ == pending_without(
                    om.subrange(0, i as int),
                    self.pending_positions@.subrange(0, i as int),
                    name@,
                ),
            decreases n - i,
        {
            let ghost ps = self.pending_positions@;
            assert(om.subrange(0, i + 1).drop_last() =~= om.subrange(0, i as int));
            assert(om.subrange(0, i + 1).last() == om[i as int]);
            assert(ps.subrange(0, i + 1).subrange(0, i as int) =~= ps.subrange(0, i as int));
            assert(ps.subrange(0, i + 1)[i as int] == ps[i as int]);
            let m = old_monitors.remove(0);
            assert(m == om[i as int]);
            let same = crate::extract::str_eq(m.name.as_str(), name);
            if same {
                removed = true;
            } else {
                kept_pending.push(self.pending_positions[i]);
                kept.push(m);
            }
            i = i + 1;
        }
        assert(om.subrange(0, n as int) =~= om);
        assert(self.pending_positions@.subrange(0, n as int) =~= self.pending_positions@);
        self.monitors = kept;
        self.pending_positions = kept_pending;
        self.validate_workspace_assignments();
        if removed {
            if self.selected_monitor >= self.monitors.len() {
                self.selected_monitor = if self.monitors.len() == 0 {
                    0
                } else {
                    self.monitors.len() - 1
                };
            }
            self.sync_panel_state();
        }
    }

    /// Index of the first output with that name.
    pub fn index_of(&self, name: &str) -> (r: Option<usize>)
        ensures
            match r {
                Some(i) => i < self.monitors@.len() && self.monitors@[i as int].name@ == name@
                    && forall|k: int| 0 <= k < i ==> (#[trigger] self.monitors@[k]).name@ != name@,
                None => forall|k: int| 0 <= k < self.monitors@.len() ==> (#[trigger] self.monitors@[k]).name@ != name@,
            },
    {
        let mut i: usize = 0;
        while i < self.monitors.len()
            invariant
                i <= self.monitors@.len(),
                forall|k: int| 0 <= k < i ==> (#[trigger] self.monitors@[k]).name@ != name@,
            decreases self.monitors@.len() - i,
        {
            if crate::extract::str_eq(self.monitors[i].name.as_str(), name) {
                return Some(i);
            }
            i = i + 1;
        }
        None
    }

    fn sanitize_selection(&mut self)
        ensures
            final(self).monitors == old(self).monitors,
            final(self).pending_positions == old(self).pending_positions,
            final(self).workspace_assignments == old(self).workspace_assignments,
            final(self).pending_workspaces == old(self).pending_workspaces,
            old(self).monitors@.len() > 0 ==> final(self).selected_monitor < old(self).monitors@.len(),
    {
        if self.monitors.len() == 0 {
            self.selected_monitor = 0;
        } else if self.selected_monitor >= self.monitors.len() {
            self.selected_monitor = self.monitors.len() - 1;
        }
    }

    /// The output under the cursor.
    pub fn selected_monitor(&self) -> (r: Option<&Monitor>)
        ensures
            self.selected_monitor < self.monitors@.len() ==> r == Some(
                &self.monitors@[self.selected_monitor as int],
            ),
            self.selected_monitor >= self.monitors@.len() ==> r is None,
    {
        if self.selected_monitor < self.monitors.len() {
            Some(&self.monitors[self.selected_monitor])
        } else {
            None
        }
    }

    /// Where output `idx` is shown: its pending position, else its committed one.
    pub fn display_position(&self, idx: usize) -> (r: (i32, i32))
        requires
            self.wf(),
        ensures
            r == self.display_spec(idx as int),
    {
        if idx < self.monitors.len() {
            match self.pending_positions[idx] {
                Some(p) => p,
                None => (self.monitors[idx].x, self.monitors[idx].y),
            }
        } else {
            (0, 0)
        }
    }

    pub fn has_pending_positions(&self) -> (r: bool)
        ensures
            r == exists|i: int| 0 <= i < self.pending_positions@.len() && (#[trigger] self.pending_positions@[i]) is Some,
    {
        let mut i: usize = 0;
        while i < self.pending_positions.len()
            invariant
                i <= self.pending_positions@.len(),
                forall|k: int| 0 <= k < i ==> (#[trigger] self.pending_positions@[k]) is None,
            decreases self.pending_positions@.len() - i,
        {
            if self.pending_positions[i].is_some() {
                return true;
            }
            i = i + 1;
        }
        false
    }

    pub fn set_error(&mut self, msg: String)
        ensures
            final(self).error_message == Some(msg),
            final(self).monitors == old(self).monitors,
    {
        self.error_message = Some(msg);
    }

    pub fn clear_error(&mut self)
        ensures
            final(self).error_message is None,
            final(self).monitors == old(self).monitors,
    {
        self.error_message = None;
    }

    /// Zooms the map in by a tenth, up to 5.
    pub fn zoom_in(&mut self)
        ensures
            final(self).map_zoom == if old(self).map_zoom + 1 > 50 { 50 } else { old(self).map_zoom + 1 },
    {
        self.map_zoom = if self.map_zoom >= 50 { 50 } else { self.map_zoom + 1 };
    }

    /// Zooms the map out by a tenth, down to 0.2.
    pub fn zoom_out(&mut self)
        ensures
            final(self).map_zoom == if old(self).map_zoom < 3 { 2 } else { (old(self).map_zoom - 1) as u32 },
    {
        self.map_zoom = if self.map_zoom < 3 { 2 } else { self.map_zoom - 1 };
    }

    /// Raises the pending scale by a hundredth, up to 10.
    pub fn scale_up(&mut self)
        ensures
            final(self).pending_scale == if old(self).pending_scale + 1 > 1000 { 1000 } else { old(self).pending_scale + 1 },
            final(self).monitors == old(self).monitors,
            final(self).pending_positions == old(self).pending_positions,
            final(self).workspace_assignments == old(self).workspace_assignments,
            final(self).pending_workspaces == old(self).pending_workspaces,
    {
        self.pending_scale = if self.pending_scale >= 1000 { 1000 } else { self.pending_scale + 1 };
    }

    /// Lowers the pending scale by a hundredth, down to 0.5.
    pub fn scale_down(&mut self)
        ensures
            final(self).pending_scale == if old(self).pending_scale < 51 { 50 } else { (old(self).pending_scale - 1) as u32 },
            final(self).monitors == old(self).monitors,
            final(self).pending_positions == old(self).pending_positions,
            final(self).workspace_assignments == old(self).workspace_assignments,
            final(self).pending_workspaces == old(self).pending_workspaces,
    {
        self.pending_scale = if self.pending_scale < 51 { 50 } else { self.pending_scale - 1 };
    }

    fn enabled_count(&self) -> (r: usize)
        ensures
            r == count_enabled(self.monitors@),
    {
        let mut c: usize = 0;
        let mut i: usize = 0;
        while i < self.monitors.len()
            invariant
                i <= self.monitors@.len(),
                c == count_enabled(self.monitors@.subrange(0, i as int)),
                c <= i,
            decreases self.monitors@.len() - i,
        {
            assert(self.monitors@.subrange(0, i + 1).drop_last() =~= self.monitors@.subrange(0, i as int));
            if self.monitors[i].enabled {
                c = c + 1;
            }
            i = i + 1;
        }
        assert(self.monitors@.subrange(0, i as int) =~= self.monitors@);
        c
    }

    pub fn dismiss_warning(&mut self)
        ensures
            !final(self).pending_last_toggle_monitor,
            final(self).monitors == old(self).monitors,
    {
        self.pending_last_toggle_monitor = false;
    }

    /// The toggle command for the selected output. Disabling the only
    /// enabled output first asks for confirmation: the call sets the warning
    /// flag and sends nothing; the next call with the flag set goes ahead.
    /// `config` is the text of the saved config, read for the position an
    /// output had when it is enabled again.
    pub fn toggle_monitor(&mut self, config: &str) -> (r: Option<MonitorAction>)
        requires
            old(self).wf(),
        ensures
            final(self).wf(),
            final(self).monitors == old(self).monitors,
            final(self).pending_positions == old(self).pending_positions,
            final(self).selected_monitor == old(self).selected_monitor,
            final(self).compositor == old(self).compositor,
            final(self).workspace_assignments == old(self).workspace_assignments,
            final(self).pending_workspaces == old(self).pending_workspaces,
            final(self).panel == old(self).panel,
            ({
                let sel = old(self).selected_monitor as int;
                let ms = old(self).monitors@;
                if sel >= ms.len() {
                    r is None && final(self).pending_last_toggle_monitor == false
                } else if !old(self).pending_last_toggle_monitor && ms[sel].enabled
                    && count_enabled(ms) == 1 {
                    r is None && final(self).pending_last_toggle_monitor
                } else {
                    &&& !final(self).pending_last_toggle_monitor
                    &&& final(self).needs_save
                    &&& r matches Some(MonitorAction::Toggle { name, mode, position })
                    &&& name@ == ms[sel].name@
                    &&& mode is None
                    &&& if ms[sel].enabled {
                        position is None
                    } else {
                        position == Some(
                            enable_position_spec(
                                ms,
                                ms[sel].name@,
                                saved_position_spec(old(self).compositor, config@, ms[sel].name@),
                                dims_int(ms[sel]),
                            ),
                        )
                    }
                }
            }),
    {
        let was_pending = self.pending_last_toggle_monitor;
        self.pending_last_toggle_monitor = false;
        if self.selected_monitor >= self.monitors.len() {
            return None;
        }
        let sel = self.selected_monitor;
        if !was_pending && self.monitors[sel].enabled && self.enabled_count() == 1 {
            self.pending_last_toggle_monitor = true;
            return None;
        }
        let action = self.perform_toggle(sel, config);
        self.needs_save = true;
        Some(action)
    }

    fn perform_toggle(&self, sel: usize, config: &str) -> (r: MonitorAction)
        requires
            sel < self.monitors@.len(),
        ensures
            r matches MonitorAction::Toggle { name, mode, position } && name@ == self.monitors@[sel as int].name@
                && mode is None && if self.monitors@[sel as int].enabled {
                position is None
            } else {
                position == Some(
                    enable_position_spec(
                        self.monitors@,
                        self.monitors@[sel as int].name@,
                        saved_position_spec(self.compositor, config@, self.monitors@[sel as int].name@),
                        dims_int(self.monitors@[sel as int]),
                    ),
                )
            },
    {
        let m = &self.monitors[sel];
        let name = m.name.as_str();
        let position = if m.enabled {
            None
        } else {
            let saved = get_saved_monitor_position(self.compositor, config, name);
            let (w, h) = effective_dimensions(m);
            match saved {
                Some(p) => {
                    if self.position_overlaps(name, (p.x, p.y), (w, h)) {
                        Some(self.calculate_closest_non_overlapping_position(name, (p.x, p.y), (w, h)))
                    } else {
                        Some((p.x, p.y))
                    }
                },
                None => Some(self.calculate_non_overlapping_position(name)),
            }
        };
        MonitorAction::Toggle { name: String::from_str(name), mode: None, position }
    }

    /// Whether a rectangle overlaps an enabled output other than `exclude_name`.
    pub fn position_overlaps(&self, exclude_name: &str, pos: (i32, i32), size: (i32, i32)) -> (r: bool)
        ensures
            r == overlaps_any(self.monitors@, exclude_name@, pos_int(pos), pos_int(size)),
    {
        let mut i: usize = 0;
        while i < self.monitors.len()
            invariant
                i <= self.monitors@.len(),
                forall|k: int|
                    0 <= k < i ==> !(is_other(#[trigger] self.monitors@[k], exclude_name@)
                        && rects_overlap(
                        pos_int(pos),
                        pos_int(size),
                        (self.monitors@[k].x as int, self.monitors@[k].y as int),
                        dims_int(self.monitors@[k]),
                    )),
            decreases self.monitors@.len() - i,
        {
            let m = &self.monitors[i];
            if m.enabled && !crate::extract::str_eq(m.name.as_str(), exclude_name) {
                let (w2, h2) = effective_dimensions(m);
                let x1 = pos.0 as i64;
                let y1 = pos.1 as i64;
                let x2 = m.x as i64;
                let y2 = m.y as i64;
                if x1 < x2 + w2 as i64 && x1 + size.0 as i64 > x2 && y1 < y2 + h2 as i64 && y1
                    + size.1 as i64 > y2 {
                    return true;
                }
            }
            i = i + 1;
        }
        false
    }

    /// Edges of the enabled outputs other than `exclude_name`.
    fn other_extremes(&self, exclude_name: &str) -> (r: (bool, i64, i64, i64, i64))
        ensures
            r.0 == extremes(self.monitors@, exclude_name@).0,
            r.1 == extremes(self.monitors@, exclude_name@).1,
            r.2 == extremes(self.monitors@, exclude_name@).2,
            r.3 == extremes(self.monitors@, exclude_name@).3,
            r.4 == extremes(self.monitors@, exclude_name@).4,
            i32::MIN <= r.1 && r.2 <= 2 * i32::MAX as int + 1 && i32::MIN <= r.3 && r.4 <= 2
                * i32::MAX as int + 1,
            r.1 <= i32::MAX && r.3 <= i32::MAX && r.2 >= 2 * i32::MIN as int && r.4 >= 2 * i32::MIN as int,
    {
        let mut any = false;
        let mut l: i64 = 0;
        let mut rr: i64 = 0;
        let mut t: i64 = 0;
        let mut b: i64 = 0;
        let mut i: usize = 0;
        while i < self.monitors.len()
            invariant
                i <= self.monitors@.len(),
                (any, l as int, rr as int, t as int, b as int) == extremes(
                    self.monitors@.subrange(0, i as int),
                    exclude_name@,
                ),
                i32::MIN <= l <= i32::MAX,
                i32::MIN <= t <= i32::MAX,
                2 * i32::MIN as int <= rr <= 2 * i32::MAX as int + 1,
                2 * i32::MIN as int <= b <= 2 * i32::MAX as int + 1,
            decreases self.monitors@.len() - i,
        {
            let m = &self.monitors[i];
            assert(self.monitors@.subrange(0, i + 1).drop_last() =~= self.monitors@.subrange(0, i as int));
            assert(self.monitors@.subrange(0, i + 1).last() == self.monitors@[i as int]);
            if m.enabled && !crate::extract::str_eq(m.name.as_str(), exclude_name) {
                let (w, h) = effective_dimensions(m);
                let ml = m.x as i64;
                let mr = m.x as i64 + w as i64;
                let mt = m.y as i64;
                let mb = m.y as i64 + h as i64;
                if !any {
                    any = true;
                    l = ml;
                    rr = mr;
                    t = mt;
                    b = mb;
                } else {
                    if ml < l {
                        l = ml;
                    }
                    if mr > rr {
                        rr = mr;
                    }
                    if mt < t {
                        t = mt;
                    }
                    if mb > b {
                        b = mb;
                    }
                }
            }
            i = i + 1;
        }
        assert(self.monitors@.subrange(0, i as int) =~= self.monitors@);
        (any, l, rr, t, b)
    }

    /// The nearest of the four slots around the other enabled outputs that
    /// overlaps none of them; right of the rightmost when none is free.
    fn calculate_closest_non_overlapping_position(
        &self,
        exclude_name: &str,
        preferred_pos: (i32, i32),
        size: (i32, i32),
    ) -> (r: (i32, i32))
        ensures
            r == closest_spec(self.monitors@, exclude_name@, preferred_pos, pos_int(size)),
    {
        let (any, l, rr, t, b) = self.other_extremes(exclude_name);
        if !any {
            return preferred_pos;
        }
        let ghost e = extremes(self.monitors@, exclude_name@);
        let cands: [(i32, i32); 4] = [
            (clamp(l - size.0 as i64), 0),
            (clamp(rr), 0),
            (0, clamp(t - size.1 as i64)),
            (0, clamp(b)),
        ];
        let ghost cs = candidates(e, pos_int(size));
        assert(cands@ =~= cs);
        let mut best: Option<(i32, i32)> = None;
        let mut k: usize = 0;
        while k < 4
            invariant
                k <= 4,
                cands@ == cs,
                cs.len() == 4,
                best == pick_candidate(
                    self.monitors@,
                    exclude_name@,
                    cs.subrange(0, k as int),
                    preferred_pos,
                    pos_int(size),
                ),
            decreases 4 - k,
        {
            let c = cands[k];
            assert(cs.subrange(0, k + 1).drop_last() =~= cs.subrange(0, k as int));
            assert(cs.subrange(0, k + 1).last() == c);
            if !self.position_overlaps(exclude_name, c, size) {
                best = match best {
                    None => Some(c),
                    Some(q) => {
                        if dist(c, preferred_pos) < dist(q, preferred_pos) {
                            Some(c)
                        } else {
                            Some(q)
                        }
                    },
                };
            }
            k = k + 1;
        }
        assert(cs.subrange(0, 4) =~= cs);
        match best {
            Some(p) => p,
            None => (clamp(rr), 0),
        }
    }

    /// Right of the rightmost other enabled output, or the origin.
    fn calculate_non_overlapping_position(&self, exclude_name: &str) -> (r: (i32, i32))
        ensures
            r == right_of_all_spec(self.monitors@, exclude_name@),
    {
        let (any, _l, rr, _t, _b) = self.other_extremes(exclude_name);
        if !any {
            return (0, 0);
        }
        (clamp(rr), 0)
    }

    /// Moves the selected output one step in `direction` at time `now_ms`.
    /// Repeats in the same direction within the repeat window grow the step
    /// by two. Coordinates stay non-negative. When the new place runs into
    /// another enabled output, the two trade sides along the axis of the move.
    pub fn move_monitor(&mut self, direction: PositionDirection, now_ms: u64)
        requires
            old(self).wf(),
        ensures
            final(self).wf(),
            final(self).monitors == old(self).monitors,
            final(self).workspace_assignments == old(self).workspace_assignments,
            final(self).pending_workspaces == old(self).pending_workspaces,
            move_effect(*old(self), *final(self), direction, now_ms),
    {
        let sel = self.selected_monitor;
        if sel >= self.monitors.len() || !self.monitors[sel].enabled {
            return;
        }
        let same_direction = match self.last_move_direction {
            Some(d) => d == direction,
            None => false,
        };
        let count: u32 = if now_ms >= self.last_move_time && now_ms - self.last_move_time
            < REPEAT_WINDOW_MS && same_direction {
            if self.move_repeat_count < u32::MAX {
                self.move_repeat_count + 1
            } else {
                u32::MAX
            }
        } else {
            0
        };
        let step: i64 = 1 + 2 * (count as i64);
        let (cur_x, cur_y) = self.display_position(sel);
        let (sel_w, sel_h) = effective_dimensions(&self.monitors[sel]);
        let target = match direction {
            PositionDirection::Left => (clamp_nonneg(cur_x as i64 - step), clamp_nonneg(cur_y as i64)),
            PositionDirection::Right => (clamp_nonneg(cur_x as i64 + step), clamp_nonneg(cur_y as i64)),
            PositionDirection::Up => (clamp_nonneg(cur_x as i64), clamp_nonneg(cur_y as i64 - step)),
            PositionDirection::Down => (clamp_nonneg(cur_x as i64), clamp_nonneg(cur_y as i64 + step)),
        };
        let hit = self.find_collision(sel, target, (sel_w, sel_h));
        match hit {
            Some(o) => {
                let (ox, oy) = self.display_position(o);
                let (ow, oh) = effective_dimensions(&self.monitors[o]);
                let (ps, po) = match direction {
                    PositionDirection::Left => (
                        (clamp_nonneg(ox as i64), clamp_nonneg(oy as i64)),
                        (clamp_nonneg(ox as i64 + sel_w as i64), clamp_nonneg(oy as i64)),
                    ),
                    PositionDirection::Right => (
                        (clamp_nonneg(cur_x as i64 + ow as i64), clamp_nonneg(cur_y as i64)),
                        (clamp_nonneg(cur_x as i64), clamp_nonneg(cur_y as i64)),
                    ),
                    PositionDirection::Up => (
                        (clamp_nonneg(ox as i64), clamp_nonneg(oy as i64)),
                        (clamp_nonneg(ox as i64), clamp_nonneg(oy as i64 + sel_h as i64)),
                    ),
                    PositionDirection::Down => (
                        (clamp_nonneg(cur_x as i64), clamp_nonneg(cur_y as i64 + oh as i64)),
                        (clamp_nonneg(cur_x as i64), clamp_nonneg(cur_y as i64)),
                    ),
                };
                self.pending_positions.set(sel, Some(ps));
                self.pending_positions.set(o, Some(po));
            },
            None => {
                self.pending_positions.set(sel, Some(target));
            },
        }
        self.move_repeat_count = count;
        self.last_move_time = now_ms;
        self.last_move_direction = Some(direction);
    }

    /// The first enabled output other than `sel`, by index, whose displayed
    /// rectangle meets the rectangle of `size` at `pos`.
    fn find_collision(&self, sel: usize, pos: (i32, i32), size: (i32, i32)) -> (r: Option<usize>)
        requires
            self.wf(),
        ensures
            r == self.first_hit(sel as int, pos, pos_int(size)),
            r matches Some(o) ==> o < self.monitors@.len() && o != sel,
    {
        let mut i: usize = 0;
        while i < self.monitors.len()
            invariant
                self.wf(),
                i <= self.monitors@.len(),
                forall|k: int| 0 <= k < i ==> !self.hits(sel as int, pos, pos_int(size), k),
            decreases self.monitors@.len() - i,
        {
            if i != sel && self.monitors[i].enabled {
                let (mx, my) = self.display_position(i);
                let (mw, mh) = effective_dimensions(&self.monitors[i]);
                if (pos.0 as i64) < mx as i64 + mw as i64 && pos.0 as i64 + size.0 as i64 > mx as i64
                    && (pos.1 as i64) < my as i64 + mh as i64 && pos.1 as i64 + size.1 as i64
                    > my as i64 {
                    proof {
                        let s = sel as int;
                        let sz = pos_int(size);
                        assert(self.is_first_hit(s, pos, sz, i as int));
                        let c = choose|c: int| self.is_first_hit(s, pos, sz, c);
                        if c < i {
                        } else if c > i {
                            assert(!self.hits(s, pos, sz, i as int));
                        }
                    }
                    return Some(i);
                }
            }
            i = i + 1;
        }
        None
    }

    /// Moves the selection in the focused list up (wrapping to the end), the
    /// output up, or the pending scale down.
    pub fn previous(&mut self, now_ms: u64)
        requires
            old(self).wf(),
        ensures
            final(self).wf(),
            final(self).monitors == old(self).monitors,
            old(self).panel == Panel::Monitor ==> move_effect(*old(self), *final(self), PositionDirection::Up, now_ms),
            old(self).panel == Panel::Mode && (if old(self).selected_monitor < old(self).monitors@.len() {
                old(self).monitors@[old(self).selected_monitor as int].modes@.len()
            } else {
                0
            }) > 0 ==> final(self).mode_selected == Some(
                match old(self).mode_selected {
                    Some(i) => if i == 0 { ((if old(self).selected_monitor < old(self).monitors@.len() {
                old(self).monitors@[old(self).selected_monitor as int].modes@.len()
            } else {
                0
            }) - 1) as usize } else { (i - 1) as usize },
                    None => 0usize,
                },
            ),
            old(self).panel == Panel::Mode && (if old(self).selected_monitor < old(self).monitors@.len() {
                old(self).monitors@[old(self).selected_monitor as int].modes@.len()
            } else {
                0
            }) == 0 ==> final(self).mode_selected == old(self).mode_selected,
            old(self).panel == Panel::Transform ==> final(self).transform_selected == Some(
                match old(self).transform_selected {
                    Some(i) => if i == 0 { 7usize } else { (i - 1) as usize },
                    None => 0usize,
                },
            ),
            old(self).panel == Panel::Workspace && old(self).workspace_assignments@.len() > 0
                ==> final(self).workspace_selected == Some(
                match old(self).workspace_selected {
                    Some(i) => if i == 0 {
                        (old(self).workspace_assignments@.len() - 1) as usize
                    } else {
                        (i - 1) as usize
                    },
                    None => 0usize,
                },
            ),
            old(self).panel == Panel::Scale ==> final(self).pending_scale == if old(self).pending_scale < 51 {
                50
            } else {
                (old(self).pending_scale - 1) as u32
            },
    {
        match self.panel {
            Panel::Mode => {
                let len = match self.selected_monitor() {
                    Some(m) => m.modes.len(),
                    None => 0,
                };
                if len == 0 {
                    return;
                }
                let i = match self.mode_selected {
                    Some(i) => if i == 0 { len - 1 } else { i - 1 },
                    None => 0,
                };
                self.mode_selected = Some(i);
            },
            Panel::Monitor => {
                self.move_monitor(PositionDirection::Up, now_ms);
            },
            Panel::Scale => {
                self.scale_down();
            },
            Panel::Transform => {
                let i = match self.transform_selected {
                    Some(i) => if i == 0 { 7 } else { i - 1 },
                    None => 0,
                };
                self.transform_selected = Some(i);
            },
            Panel::Workspace => {
                let len = self.workspace_assignments.len();
                if len == 0 {
                    return;
                }
                let i = match self.workspace_selected {
                    Some(i) => if i == 0 { len - 1 } else { i - 1 },
                    None => 0,
                };
                self.workspace_selected = Some(i);
            },
        }
    }

    /// Moves the selection in the focused list down (wrapping to the start),
    /// the output down, or the pending scale up.
    pub fn next(&mut self, now_ms: u64)
        requires
            old(self).wf(),
        ensures
            final(self).wf(),
            final(self).monitors == old(self).monitors,
            old(self).panel == Panel::Monitor ==> move_effect(*old(self), *final(self), PositionDirection::Down, now_ms),
            old(self).panel == Panel::Mode && (if old(self).selected_monitor < old(self).monitors@.len() {
                old(self).monitors@[old(self).selected_monitor as int].modes@.len()
            } else {
                0
            }) > 0 ==> final(self).mode_selected == Some(
                match old(self).mode_selected {
                    Some(i) => ((i as int % (if old(self).selected_monitor < old(self).monitors@.len() {
                old(self).monitors@[old(self).selected_monitor as int].modes@.len()
            } else {
                0
            }) as int + 1) % (if old(self).selected_monitor < old(self).monitors@.len() {
                old(self).monitors@[old(self).selected_monitor as int].modes@.len()
            } else {
                0
            }) as int) as usize,
                    None => 0usize,
                },
            ),
            old(self).panel == Panel::Mode && (if old(self).selected_monitor < old(self).monitors@.len() {
                old(self).monitors@[old(self).selected_monitor as int].modes@.len()
            } else {
                0
            }) == 0 ==> final(self).mode_selected == old(self).mode_selected,
            old(self).panel == Panel::Transform ==> final(self).transform_selected == Some(
                match old(self).transform_selected {
                    Some(i) => ((i as int % 8 + 1) % 8) as usize,
                    None => 0usize,
                },
            ),
            old(self).panel == Panel::Workspace && old(self).workspace_assignments@.len() > 0
                ==> final(self).workspace_selected == Some(
                match old(self).workspace_selected {
                    Some(i) => ((i as int % old(self).workspace_assignments@.len() as int + 1)
                        % old(self).workspace_assignments@.len() as int) as usize,
                    None => 0usize,
                },
            ),
            old(self).panel == Panel::Scale ==> final(self).pending_scale == if old(self).pending_scale + 1 > 1000 {
                1000
            } else {
                old(self).pending_scale + 1
            },
    {
        match self.panel {
            Panel::Mode => {
                let len = match self.selected_monitor() {
                    Some(m) => m.modes.len(),
                    None => 0,
                };
                if len == 0 {
                    return;
                }
                let i = match self.mode_selected {
                    Some(i) => (i % len + 1) % len,
                    None => 0,
                };
                self.mode_selected = Some(i);
            },
            Panel::Monitor => {
                self.move_monitor(PositionDirection::Down, now_ms);
            },
            Panel::Scale => {
                self.scale_up();
            },
            Panel::Transform => {
                let i = match self.transform_selected {
                    Some(i) => (i % 8 + 1) % 8,
                    None => 0,
                };
                self.transform_selected = Some(i);
            },
            Panel::Workspace => {
                let len = self.workspace_assignments.len();
                if len == 0 {
                    return;
                }
                let i = match self.workspace_selected {
                    Some(i) => (i % len + 1) % len,
                    None => 0,
                };
                self.workspace_selected = Some(i);
            },
        }
    }

    /// Binds the selected workspace to the next (or previous) output, passing
    /// through "no output" after the last (or before the first).
    pub fn cycle_workspace_monitor(&mut self, forward: bool)
        requires
            old(self).wf(),
        ensures
            final(self).wf(),
            final(self).monitors == old(self).monitors,
            final(self).workspace_assignments == old(self).workspace_assignments,
            cycle_effect(*old(self), *final(self), forward),
    {
        let ws_idx = match self.workspace_selected {
            Some(i) => i,
            None => {
                return;
            },
        };
        let effective = match self.get_effective_workspace(ws_idx) {
            Some(e) => e,
            None => {
                return;
            },
        };
        let n = self.monitors.len();
        if n == 0 {
            return;
        }
        let next = match effective.monitor_idx {
            None => if forward { Some(0) } else { Some(n - 1) },
            Some(idx) => {
                if idx >= n {
                    if forward { Some(0) } else { Some(n - 1) }
                } else if forward {
                    if idx + 1 >= n { None } else { Some(idx + 1) }
                } else if idx == 0 {
                    None
                } else {
                    Some(idx - 1)
                }
            },
        };
        let new_ws = WorkspaceAssignment { monitor_idx: next, ..effective };
        self.pending_workspaces.set(ws_idx, Some(new_ws));
    }

    /// The pending edit of workspace `idx` if there is one, else its committed state.
    pub fn get_effective_workspace(&self, idx: usize) -> (r: Option<WorkspaceAssignment>)
        requires
            self.wf(),
        ensures
            r == self.effective_workspace_spec(idx as int),
            r is Some <==> idx < self.workspace_assignments@.len(),
    {
        if idx < self.pending_workspaces.len() {
            if let Some(w) = self.pending_workspaces[idx] {
                return Some(w);
            }
        }
        if idx < self.workspace_assignments.len() {
            Some(self.workspace_assignments[idx])
        } else {
            None
        }
    }

    pub fn has_pending_workspaces(&self) -> (r: bool)
        ensures
            r == exists|i: int| 0 <= i < self.pending_workspaces@.len() && (#[trigger] self.pending_workspaces@[i]) is Some,
    {
        let mut i: usize = 0;
        while i < self.pending_workspaces.len()
            invariant
                i <= self.pending_workspaces@.len(),
                forall|k: int| 0 <= k < i ==> (#[trigger] self.pending_workspaces@[k]) is None,
            decreases self.pending_workspaces@.len() - i,
        {
            if self.pending_workspaces[i].is_some() {
                return true;
            }
            i = i + 1;
        }
        false
    }

    pub fn nav_left(&mut self, now_ms: u64)
        requires
            old(self).wf(),
        ensures
            final(self).wf(),
            final(self).monitors == old(self).monitors,
            old(self).panel == Panel::Monitor ==> move_effect(*old(self), *final(self), PositionDirection::Left, now_ms),
            old(self).panel == Panel::Workspace ==> cycle_effect(*old(self), *final(self), false),
            old(self).panel == Panel::Scale ==> final(self).pending_scale == if old(self).pending_scale < 51 {
                50
            } else {
                (old(self).pending_scale - 1) as u32
            },
            old(self).panel == Panel::Mode || old(self).panel == Panel::Transform ==> *final(self) == *old(self),
    {
        match self.panel {
            Panel::Monitor => self.move_monitor(PositionDirection::Left, now_ms),
            Panel::Scale => self.scale_down(),
            Panel::Workspace => self.cycle_workspace_monitor(false),
            _ => {},
        }
    }

    pub fn nav_right(&mut self, now_ms: u64)
        requires
            old(self).wf(),
        ensures
            final(self).wf(),
            final(self).monitors == old(self).monitors,
            old(self).panel == Panel::Monitor ==> move_effect(*old(self), *final(self), PositionDirection::Right, now_ms),
            old(self).panel == Panel::Workspace ==> cycle_effect(*old(self), *final(self), true),
            old(self).panel == Panel::Scale ==> final(self).pending_scale == if old(self).pending_scale + 1 > 1000 {
                1000
            } else {
                old(self).pending_scale + 1
            },
            old(self).panel == Panel::Mode || old(self).panel == Panel::Transform ==> *final(self) == *old(self),
    {
        match self.panel {
            Panel::Monitor => self.move_monitor(PositionDirection::Right, now_ms),
            Panel::Scale => self.scale_up(),
            Panel::Workspace => self.cycle_workspace_monitor(true),
            _ => {},
        }
    }

    /// Focus moves Monitor → Mode → Workspace → Scale → Transform → Monitor.
    pub fn toggle_panel(&mut self)
        ensures
            final(self).panel == match old(self).panel {
                Panel::Monitor => Panel::Mode,
                Panel::Mode => Panel::Workspace,
                Panel::Workspace => Panel::Scale,
                Panel::Scale => Panel::Transform,
                Panel::Transform => Panel::Monitor,
            },
            final(self).monitors == old(self).monitors,
    {
        self.panel = match self.panel {
            Panel::Monitor => Panel::Mode,
            Panel::Mode => Panel::Workspace,
            Panel::Workspace => Panel::Scale,
            Panel::Scale => Panel::Transform,
            Panel::Transform => Panel::Monitor,
        };
    }

    /// The committed workspace bindings as rules, by output name (empty when unbound).
    pub fn workspace_rules(&self) -> (r: Vec<WorkspaceRule>)
        ensures
            r@.len() == self.workspace_assignments@.len(),
            forall|i: int|
                0 <= i < r@.len() ==> (#[trigger] r@[i]).id == self.workspace_assignments@[i].id
                    && r@[i].is_default == self.workspace_assignments@[i].is_default
                    && r@[i].is_persistent == self.workspace_assignments@[i].is_persistent
                    && r@[i].monitor@ == match self.workspace_assignments@[i].monitor_idx {
                    Some(k) => if k < self.monitors@.len() {
                        self.monitors@[k as int].name@
                    } else {
                        Seq::empty()
                    },
                    None => Seq::empty(),
                },
    {
        let mut out: Vec<WorkspaceRule> = Vec::new();
        let mut i: usize = 0;
        while i < self.workspace_assignments.len()
            invariant
                i <= self.workspace_assignments@.len(),
                out@.len() == i,
                forall|j: int|
                    0 <= j < i ==> (#[trigger] out@[j]).id == self.workspace_assignments@[j].id
                        && out@[j].is_default == self.workspace_assignments@[j].is_default
                        && out@[j].is_persistent == self.workspace_assignments@[j].is_persistent
                        && out@[j].monitor@ == match self.workspace_assignments@[j].monitor_idx {
                        Some(k) => if k < self.monitors@.len() {
                            self.monitors@[k as int].name@
                        } else {
                            Seq::empty()
                        },
                        None => Seq::empty(),
                    },
            decreases self.workspace_assignments@.len() - i,
        {
            let ws = self.workspace_assignments[i];
            let monitor = match ws.monitor_idx {
                Some(k) => if k < self.monitors.len() {
                    String::from_str(self.monitors[k].name.as_str())
                } else {
                    String::new()
                },
                None => String::new(),
            };
            out.push(
                WorkspaceRule {
                    id: ws.id,
                    monitor,
                    is_default: ws.is_default,
                    is_persistent: ws.is_persistent,
                },
            );
            i = i + 1;
        }
        out
    }

    /// When there is something to save, the config file text to write (and
    /// the flag is cleared); `None` otherwise, or for a compositor without a
    /// config file.
    pub fn save_config(&mut self) -> (r: Option<String>)
        requires
            old(self).wf(),
        ensures
            final(self).wf(),
            !final(self).needs_save,
            final(self).monitors == old(self).monitors,
            final(self).pending_positions == old(self).pending_positions,
            final(self).pending_workspaces == old(self).pending_workspaces,
            final(self).workspace_assignments == old(self).workspace_assignments,
            final(self).compositor == old(self).compositor,
            !old(self).needs_save ==> r is None,
            old(self).needs_save ==> match r {
                Some(s) => crate::format::config_file_spec(
                    old(self).compositor,
                    old(self).monitors@,
                    old(self).rules_spec(),
                ) == Some(s@),
                None => old(self).compositor == Compositor::Unknown,
            },
    {
        if !self.needs_save {
            return None;
        }
        self.needs_save = false;
        let rules = self.workspace_rules();
        assert(crate::workspace_config::rules_view(rules@) =~= self.rules_spec());
        format_monitor_config(self.compositor, self.monitors.as_slice(), rules.as_slice())
    }

    /// Clears the pending positions and workspace edits.
    pub fn reset_positions(&mut self)
        requires
            old(self).wf(),
        ensures
            final(self).wf(),
            final(self).monitors == old(self).monitors,
            final(self).workspace_assignments == old(self).workspace_assignments,
            forall|i: int| 0 <= i < final(self).pending_positions@.len() ==> (#[trigger] final(self).pending_positions@[i]) is None,
            forall|i: int| 0 <= i < final(self).pending_workspaces@.len() ==> (#[trigger] final(self).pending_workspaces@[i]) is None,
    {
        let mut i: usize = 0;
        while i < self.pending_positions.len()
            invariant
                self.wf(),
                self.monitors == old(self).monitors,
                self.workspace_assignments == old(self).workspace_assignments,
                self.pending_workspaces == old(self).pending_workspaces,
                i <= self.pending_positions@.len(),
                forall|k: int| 0 <= k < i ==> (#[trigger] self.pending_positions@[k]) is None,
            decreases self.pending_positions@.len() - i,
        {
            self.pending_positions.set(i, None);
            i = i + 1;
        }
        let mut j: usize = 0;
        while j < self.pending_workspaces.len()
            invariant
                self.wf(),
                self.monitors == old(self).monitors,
                self.workspace_assignments == old(self).workspace_assignments,
                j <= self.pending_workspaces@.len(),
                forall|k: int| 0 <= k < self.pending_positions@.len() ==> (#[trigger] self.pending_positions@[k]) is None,
                forall|k: int| 0 <= k < j ==> (#[trigger] self.pending_workspaces@[k]) is None,
            decreases self.pending_workspaces@.len() - j,
        {
            self.pending_workspaces.set(j, None);
            j = j + 1;
        }
    }

    pub fn select_next_monitor(&mut self)
        requires
            old(self).wf(),
        ensures
            final(self).wf(),
            final(self).monitors == old(self).monitors,
            old(self).monitors@.len() > 0 ==> final(self).selected_monitor as int == (old(self).selected_monitor as int % old(self).monitors@.len() as int + 1) % old(self).monitors@.len() as int,
    {
        let n = self.monitors.len();
        if n == 0 {
            return;
        }
        self.selected_monitor = (self.selected_monitor % n + 1) % n;
        self.mode_selected = Some(0);
        self.sync_panel_state();
    }

    pub fn select_prev_monitor(&mut self)
        requires
            old(self).wf(),
        ensures
            final(self).wf(),
            final(self).monitors == old(self).monitors,
            old(self).monitors@.len() > 0 ==> final(self).selected_monitor == if old(self).selected_monitor == 0 || old(self).selected_monitor > old(self).monitors@.len() {
                (old(self).monitors@.len() - 1) as usize
            } else {
                (old(self).selected_monitor - 1) as usize
            },
    {
        let n = self.monitors.len();
        if n == 0 {
            return;
        }
        self.selected_monitor = if self.selected_monitor == 0 || self.selected_monitor > n {
            n - 1
        } else {
            self.selected_monitor - 1
        };
        self.mode_selected = Some(0);
        self.sync_panel_state();
    }

    /// Points the scale, transform and mode lists at the selected output's state.
    fn sync_panel_state(&mut self)
        ensures
            final(self).monitors == old(self).monitors,
            final(self).selected_monitor == old(self).selected_monitor,
            final(self).pending_positions == old(self).pending_positions,
            final(self).pending_workspaces == old(self).pending_workspaces,
            final(self).workspace_assignments == old(self).workspace_assignments,
            final(self).initial_workspaces == old(self).initial_workspaces,
            final(self).compositor == old(self).compositor,
    {
        if self.selected_monitor >= self.monitors.len() {
            return;
        }
        let m = &self.monitors[self.selected_monitor];
        self.pending_scale = m.scale;
        self.transform_selected = Some(transform_index(m.transform));
        let mut mode_idx: Option<usize> = None;
        let mut i: usize = 0;
        while i < m.modes.len()
            invariant
                i <= m.modes@.len(),
            decreases m.modes@.len() - i,
        {
            if m.modes[i].is_current {
                mode_idx = Some(i);
                break;
            }
            i = i + 1;
        }
        self.mode_selected = match mode_idx {
            Some(k) => Some(k),
            None => Some(0),
        };
    }

    /// Flips "persistent" on the selected workspace, as a pending edit.
    pub fn toggle_persistent(&mut self)
        requires
            old(self).wf(),
        ensures
            final(self).wf(),
            final(self).monitors == old(self).monitors,
            match old(self).workspace_selected {
                Some(ws) => match old(self).effective_workspace_spec(ws as int) {
                    Some(eff) => final(self).pending_workspaces@ == old(self).pending_workspaces@.update(
                        ws as int,
                        Some(WorkspaceAssignment { is_persistent: !eff.is_persistent, ..eff }),
                    ),
                    None => final(self).pending_workspaces == old(self).pending_workspaces,
                },
                None => final(self).pending_workspaces == old(self).pending_workspaces,
            },
    {
        let ws_idx = match self.workspace_selected {
            Some(i) => i,
            None => {
                return;
            },
        };
        let effective = match self.get_effective_workspace(ws_idx) {
            Some(e) => e,
            None => {
                return;
            },
        };
        let new_ws = WorkspaceAssignment { is_persistent: !effective.is_persistent, ..effective };
        self.pending_workspaces.set(ws_idx, Some(new_ws));
    }

    /// Flips "default" on the selected workspace, as a pending edit. Making it
    /// the default of its output clears the flag, as a pending edit, on every
    /// other workspace (pending or committed) that was the default of that
    /// output, so each output has at most one default.
    pub fn toggle_default(&mut self)
        requires
            old(self).wf(),
        ensures
            final(self).wf(),
            final(self).monitors == old(self).monitors,
            final(self).workspace_assignments == old(self).workspace_assignments,
            match old(self).workspace_selected {
                Some(ws) => match old(self).effective_workspace_spec(ws as int) {
                    Some(eff) => {
                        let target = if eff.is_default { None } else { eff.monitor_idx };
                        &&& final(self).effective_workspace_spec(ws as int) == Some(
                            WorkspaceAssignment { is_default: target is Some, ..eff },
                        )
                        &&& forall|i: int|
                            0 <= i < old(self).workspace_assignments@.len() && i != ws ==> #[trigger] final(self).effective_workspace_spec(i)
                                == Some(cleared_default(old(self).effective_workspace_spec(i)->0, target))
                        &&& target matches Some(t) ==> forall|i: int|
                            0 <= i < old(self).workspace_assignments@.len() && i != ws ==> !(#[trigger] final(self).effective_workspace_spec(i)->0.is_default
                                && final(self).effective_workspace_spec(i)->0.monitor_idx == Some(t))
                    },
                    None => final(self).pending_workspaces == old(self).pending_workspaces,
                },
                None => final(self).pending_workspaces == old(self).pending_workspaces,
            },
    {
        let ws_idx = match self.workspace_selected {
            Some(i) => i,
            None => {
                return;
            },
        };
        let effective = match self.get_effective_workspace(ws_idx) {
            Some(e) => e,
            None => {
                return;
            },
        };
        let target = if effective.is_default {
            None
        } else {
            effective.monitor_idx
        };
        let updated = WorkspaceAssignment { is_default: target.is_some(), ..effective };
        let n = self.workspace_assignments.len();
        let mut i: usize = 0;
        while i < n
            invariant
                self.wf(),
                old(self).wf(),
                n == self.workspace_assignments@.len(),
                ws_idx < n,
                self.monitors == old(self).monitors,
                self.workspace_assignments == old(self).workspace_assignments,
                self.workspace_selected == old(self).workspace_selected,
                i <= n,
                target == (if effective.is_default { None } else { effective.monitor_idx }),
                forall|k: int| i <= k < n ==> (#[trigger] self.pending_workspaces@[k]) == old(self).pending_workspaces@[k],
                self.pending_workspaces@[ws_idx as int] == old(self).pending_workspaces@[ws_idx as int],
                forall|k: int| 0 <= k < i && k != ws_idx ==> #[trigger] self.effective_workspace_spec(k)
                    == Some(cleared_default(old(self).effective_workspace_spec(k)->0, target)),
            decreases n - i,
        {
            let e = self.get_effective_workspace(i).unwrap();
            proof {
                assert(self.effective_workspace_spec(i as int) == old(self).effective_workspace_spec(i as int));
            }
            let ghost pw = self.pending_workspaces@;
            let ghost before = *self;
            if i != ws_idx && target.is_some() && e.is_default && e.monitor_idx == target {
                self.pending_workspaces.set(i, Some(WorkspaceAssignment { is_default: false, ..e }));
            }
            proof {
                assert forall|k: int| 0 <= k < i + 1 && k != ws_idx implies #[trigger] self.effective_workspace_spec(k)
                    == Some(cleared_default(old(self).effective_workspace_spec(k)->0, target)) by {
                    if k < i {
                        assert(self.pending_workspaces@[k] == pw[k]);
                        assert(self.effective_workspace_spec(k) == before.effective_workspace_spec(k));
                    } else {
                        assert(old(self).effective_workspace_spec(k) == Some(e));
                    }
                }
            }
            i = i + 1;
        }
        let ghost pw = self.pending_workspaces@;
        let ghost before = *self;
        self.pending_workspaces.set(ws_idx, Some(updated));
        proof {
            assert forall|k: int| 0 <= k < n && k != ws_idx implies #[trigger] self.effective_workspace_spec(k)
                == Some(cleared_default(old(self).effective_workspace_spec(k)->0, target)) by {
                assert(self.pending_workspaces@[k] == pw[k]);
                assert(self.effective_workspace_spec(k) == before.effective_workspace_spec(k));
            }
            assert forall|k: int| 0 <= k < n && k != ws_idx implies !(#[trigger] self.effective_workspace_spec(k)->0.is_default
                && self.effective_workspace_spec(k)->0.monitor_idx == target && target is Some) by {
                assert(self.effective_workspace_spec(k) == Some(cleared_default(old(self).effective_workspace_spec(k)->0, target)));
            }
        }
    }

    /// The commands that Enter sends for the focused panel: the chosen mode,
    /// the pending scale or the chosen transform of the selected output, or
    /// a position command for each pending position, in index order.
    pub fn action_commands(&self) -> (r: Vec<MonitorAction>)
        requires
            self.wf(),
        ensures
            self.panel == Panel::Monitor ==> r@.len() == position_commands(self.monitors@, self.pending_positions@).len()
                && forall|k: int| 0 <= k < r@.len() ==> is_set_position(#[trigger] r@[k], position_commands(self.monitors@, self.pending_positions@)[k]),
            self.panel == Panel::Workspace ==> r@.len() == 0,
            self.panel == Panel::Mode ==> if self.selected_monitor < self.monitors@.len() && self.mode_selected is Some
                && self.mode_selected->0 < self.monitors@[self.selected_monitor as int].modes@.len() {
                r@.len() == 1 && ({
                    let m = self.monitors@[self.selected_monitor as int];
                    let md = m.modes@[self.mode_selected->0 as int];
                    r@[0] matches MonitorAction::SwitchMode { name, width, height, refresh_rate } && name@ == m.name@
                        && width == md.width && height == md.height && refresh_rate == md.refresh_rate
                })
            } else {
                r@.len() == 0
            },
            self.panel == Panel::Scale ==> if self.selected_monitor < self.monitors@.len() {
                r@.len() == 1 && (r@[0] matches MonitorAction::SetScale { name, scale } && name@
                    == self.monitors@[self.selected_monitor as int].name@ && scale == self.pending_scale)
            } else {
                r@.len() == 0
            },
            self.panel == Panel::Transform ==> if self.selected_monitor < self.monitors@.len() && self.transform_selected is Some
                && self.transform_selected->0 < 8 {
                r@.len() == 1 && (r@[0] matches MonitorAction::SetTransform { name, transform } && name@
                    == self.monitors@[self.selected_monitor as int].name@ && transform
                    == crate::output::transform_at(self.transform_selected->0 as int))
            } else {
                r@.len() == 0
            },
    {
        let mut actions: Vec<MonitorAction> = Vec::new();
        match self.panel {
            Panel::Mode => {
                if let Some(a) = self.apply_mode() {
                    actions.push(a);
                }
            },
            Panel::Scale => {
                if let Some(a) = self.apply_scale() {
                    actions.push(a);
                }
            },
            Panel::Transform => {
                if let Some(a) = self.apply_transform() {
                    actions.push(a);
                }
            },
            Panel::Monitor => {
                let mut i: usize = 0;
                while i < self.monitors.len()
                    invariant
                        self.wf(),
                        i <= self.monitors@.len(),
                        actions@.len() == position_commands(self.monitors@.subrange(0, i as int), self.pending_positions@).len(),
                        forall|k: int| 0 <= k < actions@.len() ==> is_set_position(#[trigger] actions@[k],
                            position_commands(self.monitors@.subrange(0, i as int), self.pending_positions@)[k]),
                    decreases self.monitors@.len() - i,
                {
                    let ghost ms1 = self.monitors@.subrange(0, i + 1);
                    assert(ms1.drop_last() =~= self.monitors@.subrange(0, i as int));
                    assert(ms1.last() == self.monitors@[i as int]);
                    if let Some((x, y)) = self.pending_positions[i] {
                        actions.push(MonitorAction::SetPosition { name: String::from_str(self.monitors[i].name.as_str()), x, y });
                    }
                    i = i + 1;
                }
                assert(self.monitors@.subrange(0, i as int) =~= self.monitors@);
            },
            Panel::Workspace => {},
        }
        actions
    }

    /// Carries out Enter on the focused panel: pending positions or workspace
    /// edits are written into the arrangement, and the config text to save is
    /// returned. The overlays stay until `finish_apply`, so that a failed
    /// write can be retried. Without anything pending on the position or
    /// workspace panel, nothing happens.
    pub fn apply_action(&mut self) -> (r: Option<String>)
        requires
            old(self).wf(),
        ensures
            final(self).wf(),
            ({
                let idle = (old(self).panel == Panel::Monitor && !(exists|i: int| 0 <= i < old(self).pending_positions@.len()
                    && (#[trigger] old(self).pending_positions@[i]) is Some))
                    || (old(self).panel == Panel::Workspace && !(exists|i: int| 0 <= i < old(self).pending_workspaces@.len()
                    && (#[trigger] old(self).pending_workspaces@[i]) is Some));
                if idle {
                    r is None && *final(self) == *old(self)
                } else {
                    &&& final(self).pending_positions == old(self).pending_positions
                    &&& final(self).pending_workspaces == old(self).pending_workspaces
                    &&& final(self).compositor == old(self).compositor
                    &&& final(self).monitors@.len() == old(self).monitors@.len()
                    &&& !final(self).needs_save
                    &&& (old(self).panel == Panel::Monitor ==> forall|i: int|
                        0 <= i < final(self).monitors@.len() ==> ((#[trigger] final(self).monitors@[i]).x, final(self).monitors@[i].y) == old(self).display_spec(i)
                            && final(self).monitors@[i].name == old(self).monitors@[i].name
                            && final(self).monitors@[i].enabled == old(self).monitors@[i].enabled)
                    &&& (old(self).panel != Panel::Monitor ==> final(self).monitors == old(self).monitors)
                    &&& (old(self).panel == Panel::Workspace ==> forall|i: int|
                        0 <= i < final(self).workspace_assignments@.len() ==> (#[trigger] final(self).workspace_assignments@[i]) == (WorkspaceAssignment { id: old(self).workspace_assignments@[i].id, ..old(self).effective_workspace_spec(i)->0 }))
                    &&& (old(self).panel != Panel::Workspace ==> final(self).workspace_assignments == old(self).workspace_assignments)
                    &&& match r {
                        Some(s) => crate::format::config_file_spec(final(self).compositor, final(self).monitors@, final(self).rules_spec()) == Some(s@),
                        None => final(self).compositor == Compositor::Unknown,
                    }
                }
            }),
    {
        match self.panel {
            Panel::Monitor => {
                if !self.has_pending_positions() {
                    return None;
                }
                self.commit_positions();
            },
            Panel::Workspace => {
                if !self.has_pending_workspaces() {
                    return None;
                }
                self.commit_workspaces();
            },
            _ => {},
        }
        self.needs_save = true;
        let ghost before = *self;
        let text = self.save_config();
        assert(self.rules_spec() == before.rules_spec());
        text
    }

    /// After the config text of `apply_action` is saved: clears the overlay
    /// of the focused panel.
    pub fn finish_apply(&mut self)
        requires
            old(self).wf(),
        ensures
            final(self).wf(),
            final(self).monitors == old(self).monitors,
            final(self).workspace_assignments == old(self).workspace_assignments,
            final(self).panel == old(self).panel,
            old(self).panel == Panel::Monitor ==> forall|i: int| 0 <= i < final(self).pending_positions@.len() ==> (#[trigger] final(self).pending_positions@[i]) is None,
            old(self).panel != Panel::Monitor ==> final(self).pending_positions == old(self).pending_positions,
            old(self).panel == Panel::Workspace ==> forall|i: int| 0 <= i < final(self).pending_workspaces@.len() ==> (#[trigger] final(self).pending_workspaces@[i]) is None,
            old(self).panel != Panel::Workspace ==> final(self).pending_workspaces == old(self).pending_workspaces,
    {
        if self.panel == Panel::Monitor {
            let mut i: usize = 0;
            while i < self.pending_positions.len()
                invariant
                    self.wf(),
                    self.monitors == old(self).monitors,
                    self.workspace_assignments == old(self).workspace_assignments,
                    self.pending_workspaces == old(self).pending_workspaces,
                    self.panel == old(self).panel,
                    i <= self.pending_positions@.len(),
                    forall|k: int| 0 <= k < i ==> (#[trigger] self.pending_positions@[k]) is None,
                decreases self.pending_positions@.len() - i,
            {
                self.pending_positions.set(i, None);
                i = i + 1;
            }
        } else if self.panel == Panel::Workspace {
            let mut j: usize = 0;
            while j < self.pending_workspaces.len()
                invariant
                    self.wf(),
                    self.monitors == old(self).monitors,
                    self.workspace_assignments == old(self).workspace_assignments,
                    self.pending_positions == old(self).pending_positions,
                    self.panel == old(self).panel,
                    j <= self.pending_workspaces@.len(),
                    forall|k: int| 0 <= k < j ==> (#[trigger] self.pending_workspaces@[k]) is None,
                decreases self.pending_workspaces@.len() - j,
            {
                self.pending_workspaces.set(j, None);
                j = j + 1;
            }
        }
    }

    fn apply_mode(&self) -> (r: Option<MonitorAction>)
        ensures
            r matches Some(MonitorAction::SwitchMode { name, width, height, refresh_rate }) ==> ({
                let m = self.monitors@[self.selected_monitor as int];
                let md = m.modes@[self.mode_selected->0 as int];
                &&& self.selected_monitor < self.monitors@.len()
                &&& name@ == m.name@
                &&& width == md.width && height == md.height && refresh_rate == md.refresh_rate
            }),
            r is None <==> (self.selected_monitor >= self.monitors@.len() || self.mode_selected is None
                || self.mode_selected->0 >= self.monitors@[self.selected_monitor as int].modes@.len()),
            r matches Some(a) ==> a is SwitchMode,
    {
        let m = match self.selected_monitor() {
            Some(m) => m,
            None => {
                return None;
            },
        };
        let idx = match self.mode_selected {
            Some(i) => i,
            None => {
                return None;
            },
        };
        if idx >= m.modes.len() {
            return None;
        }
        let md = m.modes[idx];
        Some(
            MonitorAction::SwitchMode {
                name: String::from_str(m.name.as_str()),
                width: md.width,
                height: md.height,
                refresh_rate: md.refresh_rate,
            },
        )
    }

    fn apply_scale(&self) -> (r: Option<MonitorAction>)
        ensures
            self.selected_monitor < self.monitors@.len() ==> (r matches Some(
                MonitorAction::SetScale { name, scale },
            ) && name@ == self.monitors@[self.selected_monitor as int].name@ && scale
                == self.pending_scale),
            self.selected_monitor >= self.monitors@.len() ==> r is None,
    {
        match self.selected_monitor() {
            Some(m) => Some(
                MonitorAction::SetScale { name: String::from_str(m.name.as_str()), scale: self.pending_scale },
            ),
            None => None,
        }
    }

    fn apply_transform(&self) -> (r: Option<MonitorAction>)
        ensures
            r matches Some(MonitorAction::SetTransform { name, transform }) ==> self.selected_monitor
                < self.monitors@.len() && name@ == self.monitors@[self.selected_monitor as int].name@
                && self.transform_selected is Some && self.transform_selected->0 < 8 && transform
                == crate::output::transform_at(self.transform_selected->0 as int),
            r is None <==> (self.selected_monitor >= self.monitors@.len() || self.transform_selected is None
                || self.transform_selected->0 >= 8),
            r matches Some(a) ==> a is SetTransform,
    {
        let m = match self.selected_monitor() {
            Some(m) => m,
            None => {
                return None;
            },
        };
        let idx = match self.transform_selected {
            Some(i) => i,
            None => {
                return None;
            },
        };
        match transform_from_index(idx) {
            Some(t) => Some(MonitorAction::SetTransform { name: String::from_str(m.name.as_str()), transform: t }),
            None => None,
        }
    }

    /// Writes the pending positions into the outputs.
    fn commit_positions(&mut self)
        requires
            old(self).wf(),
        ensures
            final(self).wf(),
            final(self).monitors@.len() == old(self).monitors@.len(),
            final(self).workspace_assignments == old(self).workspace_assignments,
            final(self).pending_workspaces == old(self).pending_workspaces,
            final(self).pending_positions == old(self).pending_positions,
            final(self).compositor == old(self).compositor,
            final(self).panel == old(self).panel,
            forall|i: int|
                0 <= i < final(self).monitors@.len() ==> ((#[trigger] final(self).monitors@[i]).x, final(self).monitors@[i].y) == old(self).display_spec(i)
                    && final(self).monitors@[i].name == old(self).monitors@[i].name
                    && final(self).monitors@[i].enabled == old(self).monitors@[i].enabled,
    {
        let mut i: usize = 0;
        while i < self.monitors.len()
            invariant
                self.wf(),
                self.monitors@.len() == old(self).monitors@.len(),
                self.workspace_assignments == old(self).workspace_assignments,
                self.pending_workspaces == old(self).pending_workspaces,
                self.pending_positions == old(self).pending_positions,
                self.compositor == old(self).compositor,
                self.panel == old(self).panel,
                i <= self.monitors@.len(),
                forall|k: int| i <= k < self.monitors@.len() ==> (#[trigger] self.monitors@[k]) == old(self).monitors@[k],
                forall|k: int|
                    0 <= k < i ==> ((#[trigger] self.monitors@[k]).x, self.monitors@[k].y) == old(self).display_spec(k)
                        && self.monitors@[k].name == old(self).monitors@[k].name
                        && self.monitors@[k].enabled == old(self).monitors@[k].enabled,
            decreases self.monitors@.len() - i,
        {
            if let Some((x, y)) = self.pending_positions[i] {
                let mut m = self.monitors.remove(i);
                m.x = x;
                m.y = y;
                self.monitors.insert(i, m);
            }
            i = i + 1;
        }
    }

    /// Writes the pending workspace edits into the bindings.
    fn commit_workspaces(&mut self)
        requires
            old(self).wf(),
        ensures
            final(self).wf(),
            final(self).monitors == old(self).monitors,
            final(self).compositor == old(self).compositor,
            final(self).workspace_assignments@.len() == old(self).workspace_assignments@.len(),
            forall|i: int|
                0 <= i < final(self).workspace_assignments@.len() ==> (#[trigger] final(self).workspace_assignments@[i]) == (WorkspaceAssignment { id: old(self).workspace_assignments@[i].id, ..old(self).effective_workspace_spec(i)->0 }),
            final(self).pending_workspaces == old(self).pending_workspaces,
            final(self).pending_positions == old(self).pending_positions,
            final(self).panel == old(self).panel,
    {
        let mut i: usize = 0;
        while i < self.workspace_assignments.len()
            invariant
                self.wf(),
                self.monitors == old(self).monitors,
                self.compositor == old(self).compositor,
                old(self).wf(),
                self.workspace_assignments@.len() == old(self).workspace_assignments@.len(),
                i <= self.workspace_assignments@.len(),
                forall|k: int| i <= k < self.workspace_assignments@.len() ==> (#[trigger] self.workspace_assignments@[k]) == old(self).workspace_assignments@[k],
                self.pending_workspaces == old(self).pending_workspaces,
                self.pending_positions == old(self).pending_positions,
                self.panel == old(self).panel,
                forall|k: int| 0 <= k < i ==> (#[trigger] self.workspace_assignments@[k]) == (WorkspaceAssignment { id: old(self).workspace_assignments@[k].id, ..old(self).effective_workspace_spec(k)->0 }),
            decreases self.workspace_assignments@.len() - i,
        {
            assert(self.pending_workspaces@[i as int] == old(self).pending_workspaces@[i as int]);
            assert(self.workspace_assignments@[i as int] == old(self).workspace_assignments@[i as int]);
            if let Some(w) = self.pending_workspaces[i] {
                let existing = self.workspace_assignments[i];
                assert(old(self).effective_workspace_spec(i as int) == Some(w));
                self.workspace_assignments.set(
                    i,
                    WorkspaceAssignment {
                        id: existing.id,
                        monitor_idx: w.monitor_idx,
                        is_default: w.is_default,
                        is_persistent: w.is_persistent,
                    },
                );
            } else {
                assert(old(self).effective_workspace_spec(i as int) == Some(old(self).workspace_assignments@[i as int]));
            }
            i = i + 1;
        }
    }

    /// Binds the kept workspace rules to outputs by name, once.
    fn resolve_initial_workspaces(&mut self)
        requires
            old(self).pending_workspaces@.len() == old(self).workspace_assignments@.len(),
            old(self).pending_positions@.len() == old(self).monitors@.len(),
        ensures
            final(self).monitors == old(self).monitors,
            final(self).pending_positions == old(self).pending_positions,
            final(self).pending_workspaces == old(self).pending_workspaces,
            final(self).selected_monitor == old(self).selected_monitor,
            final(self).workspace_assignments@.len() == old(self).workspace_assignments@.len(),
            forall|i: int| 0 <= i < final(self).workspace_assignments@.len() ==> ref_valid(
                (#[trigger] final(self).workspace_assignments@[i]).monitor_idx,
                final(self).monitors@.len() as int,
            ) || (#[trigger] final(self).workspace_assignments@[i]) == old(self).workspace_assignments@[i],
            final(self).initial_workspaces is None,
            old(self).initial_workspaces is None ==> final(self).workspace_assignments
                == old(self).workspace_assignments,
            forall|i: int| 0 <= i < final(self).workspace_assignments@.len() ==> (#[trigger] final(self).workspace_assignments@[i]).id
                == old(self).workspace_assignments@[i].id,
    {
        let rules = match self.initial_workspaces.take() {
            Some(r) => r,
            None => {
                return;
            },
        };
        let mut r: usize = 0;
        while r < rules.len()
            invariant
                self.monitors == old(self).monitors,
                self.pending_positions == old(self).pending_positions,
                self.pending_workspaces == old(self).pending_workspaces,
                self.selected_monitor == old(self).selected_monitor,
                self.initial_workspaces is None,
                self.workspace_assignments@.len() == old(self).workspace_assignments@.len(),
                forall|q: int| 0 <= q < self.workspace_assignments@.len() ==> (#[trigger] self.workspace_assignments@[q]).id
                    == old(self).workspace_assignments@[q].id,
                r <= rules@.len(),
                forall|i: int| 0 <= i < self.workspace_assignments@.len() ==> ref_valid(
                    (#[trigger] self.workspace_assignments@[i]).monitor_idx,
                    self.monitors@.len() as int,
                ) || self.workspace_assignments@[i] == old(self).workspace_assignments@[i],
            decreases rules@.len() - r,
        {
            let rule = &rules[r];
            let mut monitor_idx: Option<usize> = None;
            let mut k: usize = 0;
            while k < self.monitors.len()
                invariant
                    k <= self.monitors@.len(),
                    ref_valid(monitor_idx, self.monitors@.len() as int),
                decreases self.monitors@.len() - k,
            {
                if crate::extract::str_eq(self.monitors[k].name.as_str(), rule.monitor.as_str()) {
                    monitor_idx = Some(k);
                    break;
                }
                k = k + 1;
            }
            let mut j: usize = 0;
            while j < self.workspace_assignments.len()
                invariant
                    self.monitors == old(self).monitors,
                    self.pending_positions == old(self).pending_positions,
                    self.pending_workspaces == old(self).pending_workspaces,
                    self.selected_monitor == old(self).selected_monitor,
                    self.initial_workspaces is None,
                    self.workspace_assignments@.len() == old(self).workspace_assignments@.len(),
                forall|q: int| 0 <= q < self.workspace_assignments@.len() ==> (#[trigger] self.workspace_assignments@[q]).id
                    == old(self).workspace_assignments@[q].id,
                    ref_valid(monitor_idx, self.monitors@.len() as int),
                    j <= self.workspace_assignments@.len(),
                    forall|i: int| 0 <= i < self.workspace_assignments@.len() ==> ref_valid(
                        (#[trigger] self.workspace_assignments@[i]).monitor_idx,
                        self.monitors@.len() as int,
                    ) || self.workspace_assignments@[i] == old(self).workspace_assignments@[i],
                decreases self.workspace_assignments@.len() - j,
            {
                if self.workspace_assignments[j].id == rule.id {
                    let id = self.workspace_assignments[j].id;
                    self.workspace_assignments.set(
                        j,
                        WorkspaceAssignment {
                            id,
                            monitor_idx,
                            is_default: rule.is_default,
                            is_persistent: rule.is_persistent,
                        },
                    );
                    break;
                }
                j = j + 1;
            }
            r = r + 1;
        }
    }

    /// Clears every binding, committed or pending, to an output past the end
    /// of the list.
    fn validate_workspace_assignments(&mut self)
        requires
            old(self).pending_workspaces@.len() == old(self).workspace_assignments@.len(),
            old(self).pending_positions@.len() == old(self).monitors@.len(),
        ensures
            final(self).wf(),
            final(self).monitors == old(self).monitors,
            final(self).pending_positions == old(self).pending_positions,
            final(self).selected_monitor == old(self).selected_monitor,
            final(self).initial_workspaces == old(self).initial_workspaces,
            final(self).workspace_assignments@.len() == old(self).workspace_assignments@.len(),
            forall|i: int|
                0 <= i < final(self).workspace_assignments@.len() ==> (#[trigger] final(self).workspace_assignments@[i]) == if ref_valid(
                    old(self).workspace_assignments@[i].monitor_idx,
                    old(self).monitors@.len() as int,
                ) {
                    old(self).workspace_assignments@[i]
                } else {
                    WorkspaceAssignment { monitor_idx: None, ..old(self).workspace_assignments@[i] }
                },
    {
        let n = self.monitors.len();
        let mut i: usize = 0;
        while i < self.workspace_assignments.len()
            invariant
                self.monitors == old(self).monitors,
                self.pending_positions == old(self).pending_positions,
                self.selected_monitor == old(self).selected_monitor,
                self.initial_workspaces == old(self).initial_workspaces,
                n == self.monitors@.len(),
                self.workspace_assignments@.len() == old(self).workspace_assignments@.len(),
                self.pending_workspaces@.len() == old(self).pending_workspaces@.len(),
                self.pending_workspaces@.len() == self.workspace_assignments@.len(),
                i <= self.workspace_assignments@.len(),
                forall|k: int| i <= k < self.workspace_assignments@.len() ==> (#[trigger] self.workspace_assignments@[k]) == old(self).workspace_assignments@[k],
                forall|k: int| i <= k < self.pending_workspaces@.len() ==> (#[trigger] self.pending_workspaces@[k]) == old(self).pending_workspaces@[k],
                forall|k: int|
                    0 <= k < i ==> (#[trigger] self.workspace_assignments@[k]) == if ref_valid(
                        old(self).workspace_assignments@[k].monitor_idx,
                        n as int,
                    ) {
                        old(self).workspace_assignments@[k]
                    } else {
                        WorkspaceAssignment { monitor_idx: None, ..old(self).workspace_assignments@[k] }
                    },
                forall|k: int| 0 <= k < i ==> match #[trigger] self.pending_workspaces@[k] {
                    Some(w) => ref_valid(w.monitor_idx, n as int),
                    None => true,
                },
            decreases self.workspace_assignments@.len() - i,
        {
            let w = self.workspace_assignments[i];
            if let Some(idx) = w.monitor_idx {
                if idx >= n {
                    self.workspace_assignments.set(i, WorkspaceAssignment { monitor_idx: None, ..w });
                }
            }
            if let Some(p) = self.pending_workspaces[i] {
                if let Some(idx) = p.monitor_idx {
                    if idx >= n {
                        self.pending_workspaces.set(i, Some(WorkspaceAssignment { monitor_idx: None, ..p }));
                    }
                }
            }
            i = i + 1;
        }
    }
}

/// In a well-formed arrangement every workspace binding, committed or
/// pending, is either unset or an index into the current output list. Every
/// change of the output list (`set_monitors`, `update_monitor`,
/// `remove_monitor`) keeps the arrangement well-formed.
pub proof fn lemma_workspace_refs_in_range(app: &App, i: int)
    requires
        app.wf(),
        0 <= i < app.workspace_assignments@.len(),
    ensures
        match app.workspace_assignments@[i].monitor_idx {
            Some(k) => k < app.monitors@.len(),
            None => true,
        },
        match app.pending_workspaces@[i] {
            Some(w) => match w.monitor_idx {
                Some(k) => k < app.monitors@.len(),
                None => true,
            },
            None => true,
        },
{
    assert(ref_valid(app.workspace_assignments@[i].monitor_idx, app.monitors@.len() as int));
    assert(match app.pending_workspaces@[i] {
        Some(w) => ref_valid(w.monitor_idx, app.monitors@.len() as int),
        None => true,
    });
}

/// A move that runs into nothing leaves the moved output overlapping no
/// other enabled output where they are shown.
pub proof fn lemma_free_move_overlaps_nothing(app: &App, sel: int, pos: (i32, i32), size: (int, int))
    requires
        app.first_hit(sel, pos, size) is None,
    ensures
        forall|i: int|
            0 <= i < app.monitors@.len() && i != sel && (#[trigger] app.monitors@[i]).enabled
                ==> !rects_overlap(
                pos_int(pos),
                size,
                pos_int(app.display_spec(i)),
                dims_int(app.monitors@[i]),
            ),
{
    assert forall|i: int|
        0 <= i < app.monitors@.len() && i != sel && (#[trigger] app.monitors@[i]).enabled implies !rects_overlap(
        pos_int(pos),
        size,
        pos_int(app.display_spec(i)),
        dims_int(app.monitors@[i]),
    ) by {
        assert(!app.hits(sel, pos, size, i));
    }
}

/// Coordinates and sizes small enough that no edge leaves the `i32` range.
pub open spec fn layout_bounded(ms: Seq<Monitor>, size: (int, int)) -> bool {
    &&& 0 <= size.0 <= 0x1000_0000 && 0 <= size.1 <= 0x1000_0000
    &&& forall|i: int|
        0 <= i < ms.len() ==> -0x1000_0000 <= (#[trigger] ms[i]).x <= 0x1000_0000 && -0x1000_0000
            <= ms[i].y <= 0x1000_0000 && 0 <= dims_int(ms[i]).0 <= 0x1000_0000 && 0 <= dims_int(
            ms[i],
        ).1 <= 0x1000_0000
}

proof fn lemma_extremes_bound(ms: Seq<Monitor>, ex: Seq<char>, size: (int, int))
    requires
        layout_bounded(ms, size),
    ensures
        extremes(ms, ex).0 ==> -0x1000_0000 <= extremes(ms, ex).2 <= 0x2000_0000,
        forall|i: int|
            0 <= i < ms.len() && is_other(#[trigger] ms[i], ex) ==> extremes(ms, ex).0 && ms[i].x
                + dims_int(ms[i]).0 <= extremes(ms, ex).2,
        !extremes(ms, ex).0 ==> forall|i: int| 0 <= i < ms.len() ==> !is_other(#[trigger] ms[i], ex),
    decreases ms.len(),
{
    if ms.len() > 0 {
        let rest = ms.drop_last();
        assert(layout_bounded(rest, size)) by {
            assert forall|i: int| 0 <= i < rest.len() implies -0x1000_0000 <= (#[trigger] rest[i]).x <= 0x1000_0000 && -0x1000_0000
                <= rest[i].y <= 0x1000_0000 && 0 <= dims_int(rest[i]).0 <= 0x1000_0000 && 0 <= dims_int(rest[i]).1 <= 0x1000_0000 by {
                assert(rest[i] == ms[i]);
            }
        }
        lemma_extremes_bound(rest, ex, size);
        assert(ms.last() == ms[ms.len() - 1]);
        assert forall|i: int| 0 <= i < ms.len() && is_other(#[trigger] ms[i], ex) implies extremes(ms, ex).0 && ms[i].x
                + dims_int(ms[i]).0 <= extremes(ms, ex).2 by {
            if i < ms.len() - 1 {
                assert(rest[i] == ms[i]);
            }
        }
        assert forall|i: int| !extremes(ms, ex).0 && 0 <= i < ms.len() implies !is_other(#[trigger] ms[i], ex) by {
            if i < ms.len() - 1 {
                assert(rest[i] == ms[i]);
            }
        }
    }
}

proof fn lemma_right_of_all_free(ms: Seq<Monitor>, ex: Seq<char>, size: (int, int))
    requires
        layout_bounded(ms, size),
    ensures
        !overlaps_any(ms, ex, pos_int(right_of_all_spec(ms, ex)), size),
{
    lemma_extremes_bound(ms, ex, size);
}

proof fn lemma_pick_is_free(
    ms: Seq<Monitor>,
    ex: Seq<char>,
    cands: Seq<(i32, i32)>,
    pref: (i32, i32),
    size: (int, int),
)
    ensures
        pick_candidate(ms, ex, cands, pref, size) matches Some(c) ==> !overlaps_any(ms, ex, pos_int(c), size),
    decreases cands.len(),
{
    if cands.len() > 0 {
        lemma_pick_is_free(ms, ex, cands.drop_last(), pref, size);
    }
}

/// The position an output gets when it is enabled overlaps no other enabled
/// output (as long as no coordinate reaches the ends of the `i32` range).
pub proof fn lemma_enable_position_free(
    ms: Seq<Monitor>,
    ex: Seq<char>,
    saved: Option<SavedPosition>,
    size: (int, int),
)
    requires
        layout_bounded(ms, size),
    ensures
        !overlaps_any(ms, ex, pos_int(enable_position_spec(ms, ex, saved, size)), size),
{
    lemma_extremes_bound(ms, ex, size);
    match saved {
        Some(p) => {
            if overlaps_any(ms, ex, (p.x as int, p.y as int), size) {
                let e = extremes(ms, ex);
                if e.0 {
                    lemma_pick_is_free(ms, ex, candidates(e, size), (p.x, p.y), size);
                }
            }
        },
        None => {
            lemma_right_of_all_free(ms, ex, size);
        },
    }
}

fn clamp(v: i64) -> (r: i32)
    ensures
        r == clamp_i32(v as int),
{
    if v < i32::MIN as i64 {
        i32::MIN
    } else if v > i32::MAX as i64 {
        i32::MAX
    } else {
        v as i32
    }
}

fn clamp_nonneg(v: i64) -> (r: i32)
    ensures
        r == clamp_pos(v as int),
{
    if v < 0 {
        0
    } else if v > i32::MAX as i64 {
        i32::MAX
    } else {
        v as i32
    }
}

fn dist(a: (i32, i32), b: (i32, i32)) -> (r: i64)
    ensures
        r == distance(a, b),
{
    let dx = a.0 as i64 - b.0 as i64;
    let dy = a.1 as i64 - b.1 as i64;
    (if dx < 0 { -dx } else { dx }) + (if dy < 0 { -dy } else { dy })
}

} // verus!
