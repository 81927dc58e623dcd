use xwlm::compositor::Compositor;
use xwlm::format::{format_hyprland, format_monitor_config, format_river, format_sway};
use xwlm::output::{effective_dimensions, monitor_resolution, Mode, Monitor, Transform};
use xwlm::parse::{parse_hyprland_position, parse_sway_position, SavedPosition};
use xwlm::workspace_config::{parse_hyprland_workspaces, WorkspaceRule};

fn monitor(name: &str, enabled: bool, x: i32, y: i32, scale: u32, transform: Transform) -> Monitor {
    Monitor {
        name: name.to_string(),
        enabled,
        x,
        y,
        modes: vec![
            Mode { width: 2560, height: 1440, refresh_rate: 144, preferred: true, is_current: false },
            Mode { width: 1920, height: 1080, refresh_rate: 60, preferred: false, is_current: true },
        ],
        width: 1920,
        height: 1080,
        scale,
        transform,
    }
}

fn text(v: Vec<char>) -> String {
    v.into_iter().collect()
}

#[test]
fn hyprland_text_exact() {
    let ms = vec![
        monitor("DP-1", true, -1920, 0, 100, Transform::Normal),
        monitor("eDP-1", false, 0, 0, 150, Transform::Rotate90),
    ];
    let ws = vec![WorkspaceRule { id: 1, monitor: "DP-1".to_string(), is_default: true, is_persistent: false }];
    assert_eq!(
        text(format_hyprland(&ms, &ws)),
        "monitor = DP-1, 1920x1080@60, -1920x0, 1\nmonitor = eDP-1, 1920x1080@60, 0x0, 1.50, transform, 1\nmonitor = eDP-1, disable\n\nworkspace = 1, monitor:DP-1,default:true\n"
    );
}

#[test]
fn sway_text_exact() {
    let ms = vec![
        monitor("DP-1", true, 1920, 0, 125, Transform::Flipped90),
        monitor("eDP-1", false, 0, 0, 100, Transform::Normal),
    ];
    let ws = vec![
        WorkspaceRule { id: 1, monitor: "DP-1".to_string(), is_default: false, is_persistent: false },
        WorkspaceRule { id: 2, monitor: "eDP-1".to_string(), is_default: false, is_persistent: false },
    ];
    assert_eq!(
        text(format_sway(&ms, &ws)),
        "output DP-1 {\n    mode 1920x1080@60Hz\n    pos 1920 0\n    scale 1.25\n    transform flipped-90\n}\n\noutput eDP-1 disable\n\nworkspace 1 output DP-1\nworkspace 2 output eDP-1\n\n"
    );
}

#[test]
fn river_script_exact() {
    let ms = vec![monitor("DP-1", true, 5, 7, 200, Transform::Rotate180), monitor("X", false, 0, 0, 100, Transform::Normal)];
    assert_eq!(
        text(format_river(&ms)),
        "#!/bin/sh\nwlr-randr --output DP-1 --mode 1920x1080@60Hz --pos 5,7 --scale 2 --transform 180\nwlr-randr --output X --off\n"
    );
}

#[test]
fn config_file_has_header_and_unknown_has_none() {
    let ms = vec![monitor("A", true, 0, 0, 100, Transform::Normal)];
    let s = format_monitor_config(Compositor::Hyprland, &ms, &[]).unwrap();
    assert_eq!(s, "# This file is managed by xwlm. Do not edit manually.\n\nmonitor = A, 1920x1080@60, 0x0, 1\n");
    assert!(format_monitor_config(Compositor::Unknown, &ms, &[]).is_none());
}

#[test]
fn formatted_positions_parse_back() {
    let ms = vec![
        monitor("DP-1", true, -1920, 0, 100, Transform::Normal),
        monitor("HDMI-A-1", true, 0, 1080, 150, Transform::Rotate270),
        monitor("eDP-1", false, 77, 3, 100, Transform::Normal),
    ];
    let ws = vec![WorkspaceRule { id: 3, monitor: "DP-1".to_string(), is_default: false, is_persistent: true }];
    let h = format_monitor_config(Compositor::Hyprland, &ms, &ws).unwrap();
    assert_eq!(parse_hyprland_position(&h, "DP-1"), Some(SavedPosition { x: -1920, y: 0 }));
    assert_eq!(parse_hyprland_position(&h, "HDMI-A-1"), Some(SavedPosition { x: 0, y: 1080 }));
    let rules = parse_hyprland_workspaces(&h);
    assert_eq!(rules, ws);
    let s = format_monitor_config(Compositor::Sway, &ms, &ws).unwrap();
    assert_eq!(parse_sway_position(&s, "DP-1"), Some(SavedPosition { x: -1920, y: 0 }));
    assert_eq!(parse_sway_position(&s, "HDMI-A-1"), Some(SavedPosition { x: 0, y: 1080 }));
}

#[test]
fn resolution_and_quarter_turns() {
    let mut m = monitor("A", true, 0, 0, 100, Transform::Rotate90);
    assert_eq!(monitor_resolution(&m), (1920, 1080));
    assert_eq!(effective_dimensions(&m), (1080, 1920));
    m.modes[1].is_current = false;
    assert_eq!(monitor_resolution(&m), (2560, 1440));
    m.modes.clear();
    m.transform = Transform::Flipped;
    assert_eq!(effective_dimensions(&m), (1920, 1080));
}
