use xwlm::compositor::Compositor;
use xwlm::output::{Mode, Monitor, Transform};
use xwlm::state::{App, MonitorAction, Panel, PositionDirection, WorkspaceAssignment};

fn monitor(name: &str, enabled: bool, x: i32, y: i32, w: i32, h: i32) -> Monitor {
    Monitor {
        name: name.to_string(),
        enabled,
        x,
        y,
        modes: vec![Mode { width: w, height: h, refresh_rate: 60, preferred: true, is_current: true }],
        width: w,
        height: h,
        scale: 100,
        transform: Transform::Normal,
    }
}

fn app(ms: Vec<Monitor>) -> App {
    let mut a = App::new(Compositor::Hyprland, "/c/hypr/monitors.conf".to_string(), "", 10);
    a.set_monitors(ms);
    a
}

#[test]
fn disable_then_enable_restores_saved_position() {
    let mut a = app(vec![monitor("A", true, 0, 0, 1920, 1080), monitor("B", true, 1920, 0, 1920, 1080)]);
    let off = a.toggle_monitor("");
    assert_eq!(off, Some(MonitorAction::Toggle { name: "A".to_string(), mode: None, position: None }));
    a.update_monitor(monitor("A", false, 0, 0, 1920, 1080));
    let config = "monitor = A, 1920x1080@60, 0x0, 1\nmonitor = B, 1920x1080@60, 1920x0, 1\n";
    let on = a.toggle_monitor(config);
    assert_eq!(on, Some(MonitorAction::Toggle { name: "A".to_string(), mode: None, position: Some((0, 0)) }));
}

#[test]
fn enabling_onto_an_occupied_place_moves_to_nearest_free_slot() {
    let mut a = app(vec![monitor("A", false, 0, 0, 1920, 1080), monitor("B", true, 0, 0, 1920, 1080)]);
    let on = a.toggle_monitor("monitor = A, 1920x1080@60, 100x0, 1\n");
    assert_eq!(on, Some(MonitorAction::Toggle { name: "A".to_string(), mode: None, position: Some((0, -1080)) }));
}

#[test]
fn enabling_without_saved_position_goes_right_of_rightmost() {
    let mut a = app(vec![monitor("A", false, 0, 0, 800, 600), monitor("B", true, 100, 0, 1920, 1080), monitor("C", true, 2020, 50, 1280, 1024)]);
    let on = a.toggle_monitor("");
    assert_eq!(on, Some(MonitorAction::Toggle { name: "A".to_string(), mode: None, position: Some((3300, 0)) }));
}

#[test]
fn disabling_last_output_asks_first() {
    let mut a = app(vec![monitor("A", true, 0, 0, 1920, 1080), monitor("B", false, 0, 0, 1920, 1080)]);
    assert_eq!(a.toggle_monitor(""), None);
    assert!(a.pending_last_toggle_monitor);
    let r = a.toggle_monitor("");
    assert_eq!(r, Some(MonitorAction::Toggle { name: "A".to_string(), mode: None, position: None }));
    assert!(!a.pending_last_toggle_monitor);
}

#[test]
fn moves_accelerate_and_stop_at_zero() {
    let mut a = app(vec![monitor("A", true, 10, 10, 100, 100)]);
    a.move_monitor(PositionDirection::Right, 1000);
    assert_eq!(a.display_position(0), (11, 10));
    a.move_monitor(PositionDirection::Right, 1100);
    assert_eq!(a.display_position(0), (14, 10));
    a.move_monitor(PositionDirection::Right, 1150);
    assert_eq!(a.display_position(0), (19, 10));
    a.move_monitor(PositionDirection::Up, 1160);
    assert_eq!(a.display_position(0), (19, 9));
    a.move_monitor(PositionDirection::Left, 5000);
    a.move_monitor(PositionDirection::Left, 5010);
    a.move_monitor(PositionDirection::Left, 5020);
    a.move_monitor(PositionDirection::Left, 5030);
    a.move_monitor(PositionDirection::Left, 5040);
    assert_eq!(a.display_position(0), (0, 9));
}

#[test]
fn moving_into_a_neighbour_swaps_sides() {
    let mut a = app(vec![monitor("A", true, 0, 0, 100, 100), monitor("B", true, 100, 0, 200, 100)]);
    a.move_monitor(PositionDirection::Right, 0);
    assert_eq!(a.display_position(0), (200, 0));
    assert_eq!(a.display_position(1), (0, 0));
    assert!(a.has_pending_positions());
    let actions = a.action_commands();
    assert_eq!(
        actions,
        vec![
            MonitorAction::SetPosition { name: "A".to_string(), x: 200, y: 0 },
            MonitorAction::SetPosition { name: "B".to_string(), x: 0, y: 0 },
        ]
    );
    let text = a.apply_action();
    assert_eq!(a.monitors[0].x, 200);
    assert_eq!(a.monitors[1].x, 0);
    assert!(a.has_pending_positions());
    a.finish_apply();
    assert!(!a.has_pending_positions());
    let text = text.unwrap();
    assert!(text.contains("monitor = A, 100x100@60, 200x0, 1\n"));
}

#[test]
fn workspace_bindings_follow_output_list() {
    let mut a = App::new(Compositor::Hyprland, "/c/m.conf".to_string(), "workspace = 2, monitor:B, default:true\n", 3);
    a.set_monitors(vec![monitor("A", true, 0, 0, 10, 10), monitor("B", true, 10, 0, 10, 10)]);
    assert_eq!(a.get_effective_workspace(1), Some(WorkspaceAssignment { id: 2, monitor_idx: Some(1), is_default: true, is_persistent: false }));
    a.remove_monitor("B");
    assert_eq!(a.monitors.len(), 1);
    assert_eq!(a.get_effective_workspace(1).unwrap().monitor_idx, None);
    a.set_monitors(vec![]);
    for i in 0..3 {
        assert_eq!(a.get_effective_workspace(i).unwrap().monitor_idx, None);
    }
}

#[test]
fn cycling_and_default_toggle() {
    let mut a = app(vec![monitor("A", true, 0, 0, 10, 10), monitor("B", true, 10, 0, 10, 10)]);
    a.panel = Panel::Workspace;
    a.workspace_selected = Some(0);
    a.nav_right(0);
    assert_eq!(a.get_effective_workspace(0).unwrap().monitor_idx, Some(0));
    a.toggle_default();
    assert!(a.get_effective_workspace(0).unwrap().is_default);
    a.workspace_selected = Some(1);
    a.cycle_workspace_monitor(true);
    a.toggle_default();
    assert!(a.get_effective_workspace(1).unwrap().is_default);
    assert!(!a.get_effective_workspace(0).unwrap().is_default);
    a.cycle_workspace_monitor(true);
    a.cycle_workspace_monitor(true);
    assert_eq!(a.get_effective_workspace(1).unwrap().monitor_idx, None);
    a.toggle_persistent();
    assert!(a.get_effective_workspace(1).unwrap().is_persistent);
    assert!(a.action_commands().is_empty());
    let text = a.apply_action();
    assert!(text.unwrap().contains("workspace = 1, monitor:A\n"));
    a.finish_apply();
    assert!(!a.has_pending_workspaces());
}

#[test]
fn panels_cycle_and_scale_clamps() {
    let mut a = app(vec![monitor("A", true, 0, 0, 10, 10)]);
    a.toggle_panel();
    assert_eq!(a.panel, Panel::Mode);
    a.toggle_panel();
    a.toggle_panel();
    assert_eq!(a.panel, Panel::Scale);
    for _ in 0..2000 {
        a.scale_up();
    }
    assert_eq!(a.pending_scale, 1000);
    for _ in 0..2000 {
        a.scale_down();
    }
    assert_eq!(a.pending_scale, 50);
    let actions = a.action_commands();
    assert_eq!(actions, vec![MonitorAction::SetScale { name: "A".to_string(), scale: 50 }]);
    assert!(a.apply_action().is_some());
}

#[test]
fn removal_shifts_pending_positions_down() {
    let mut a = app(vec![monitor("A", true, 0, 0, 10, 10), monitor("B", true, 100, 0, 10, 10), monitor("C", true, 200, 0, 10, 10)]);
    a.selected_monitor = 2;
    a.move_monitor(PositionDirection::Down, 0);
    assert_eq!(a.display_position(2), (200, 1));
    a.remove_monitor("A");
    assert_eq!(a.display_position(1), (200, 1));
    assert_eq!(a.display_position(0), (100, 0));
}

#[test]
fn enabled_output_never_lands_on_another() {
    let ms = vec![
        monitor("A", false, 0, 0, 1000, 800),
        monitor("B", true, 0, 0, 1920, 1080),
        monitor("C", true, 1920, 0, 1280, 1024),
        monitor("D", true, -1280, 0, 1280, 1024),
    ];
    let mut a = app(ms);
    let on = a.toggle_monitor("monitor = A, 1000x800@60, 500x500, 1\n");
    let Some(MonitorAction::Toggle { position: Some((x, y)), .. }) = on else {
        panic!("expected an enable command");
    };
    for m in &a.monitors[1..] {
        let overlaps = x < m.x + m.width && x + 1000 > m.x && y < m.y + m.height && y + 800 > m.y;
        assert!(!overlaps, "{} overlaps at ({x},{y})", m.name);
    }
}

#[test]
fn free_move_keeps_outputs_apart() {
    let mut a = app(vec![monitor("A", true, 0, 0, 100, 100), monitor("B", true, 300, 0, 100, 100)]);
    a.move_monitor(PositionDirection::Right, 0);
    let (x, y) = a.display_position(0);
    assert_eq!((x, y), (1, 0));
    assert!(!(x < 300 + 100 && x + 100 > 300));
}

#[test]
fn default_moves_off_committed_workspace() {
    let mut a = App::new(Compositor::Hyprland, "/c/m.conf".to_string(), "workspace = 1, monitor:A, default:true\n", 2);
    a.set_monitors(vec![monitor("A", true, 0, 0, 10, 10)]);
    assert!(a.get_effective_workspace(0).unwrap().is_default);
    a.workspace_selected = Some(1);
    a.cycle_workspace_monitor(true);
    a.toggle_default();
    assert!(a.get_effective_workspace(1).unwrap().is_default);
    assert!(!a.get_effective_workspace(0).unwrap().is_default);
}

#[test]
fn failed_save_keeps_pending_positions() {
    let mut a = app(vec![monitor("A", true, 0, 0, 100, 100)]);
    a.move_monitor(PositionDirection::Right, 0);
    let text = a.apply_action();
    assert!(text.is_some());
    assert!(a.has_pending_positions());
    assert_eq!(a.display_position(0), (1, 0));
    assert_eq!(a.apply_action(), text);
}

#[test]
fn enter_without_pending_edits_does_nothing() {
    let mut a = app(vec![monitor("A", true, 0, 0, 100, 100)]);
    assert!(a.action_commands().is_empty());
    assert_eq!(a.apply_action(), None);
}
