use xwlm::compositor::Compositor;
use xwlm::parse::{
    get_saved_monitor_position, parse_hyprland_position, parse_sway_position, parse_xy_position,
    SavedPosition,
};

#[test]
fn test_parse_hyprland_position_basic() {
    let content = r#"
monitor = HDMI-A-1, 2560x1440@59, 1920x0, 1
monitor = eDP-1, 1920x1080@144, 0x0, 1
"#;
    assert_eq!(
        parse_hyprland_position(content, "eDP-1"),
        Some(SavedPosition { x: 0, y: 0 })
    );
    assert_eq!(
        parse_hyprland_position(content, "HDMI-A-1"),
        Some(SavedPosition { x: 1920, y: 0 })
    );
}

#[test]
fn test_parse_hyprland_position_with_disable() {
    let content = r#"
monitor = HDMI-A-1, 2560x1440@59, 1920x0, 1
monitor = eDP-1, 1920x1080@144, 0x0, 1
monitor = eDP-1, disable
"#;
    assert_eq!(
        parse_hyprland_position(content, "eDP-1"),
        Some(SavedPosition { x: 0, y: 0 })
    );
}

#[test]
fn test_parse_hyprland_position_only_disable() {
    let content = r#"
monitor = HDMI-A-1, 2560x1440@59, 1920x0, 1
monitor = eDP-1, disable
"#;
    assert_eq!(parse_hyprland_position(content, "eDP-1"), None);
}

#[test]
fn test_parse_hyprland_position_not_found() {
    let content = r#"
monitor = HDMI-A-1, 2560x1440@59, 1920x0, 1
"#;
    assert_eq!(parse_hyprland_position(content, "eDP-1"), None);
}

#[test]
fn test_parse_xy_position() {
    assert_eq!(parse_xy_position("0x0"), Some((0, 0)));
    assert_eq!(parse_xy_position("1920x0"), Some((1920, 0)));
    assert_eq!(parse_xy_position("1920x1080"), Some((1920, 1080)));
    assert_eq!(parse_xy_position("invalid"), None);
    assert_eq!(parse_xy_position("0"), None);
}

#[test]
fn test_real_world_config() {
    let content = r#"
monitor = HDMI-A-1, 2560x1440@59, 1920x0, 1
monitor = eDP-1, 1920x1080@144, 0x0, 1
monitor = eDP-1, disable

workspace = 1, monitor:HDMI-A-1
workspace = 2, monitor:eDP-1
"#;
    assert_eq!(
        parse_hyprland_position(content, "eDP-1"),
        Some(SavedPosition { x: 0, y: 0 })
    );
    assert_eq!(
        parse_hyprland_position(content, "HDMI-A-1"),
        Some(SavedPosition { x: 1920, y: 0 })
    );
}

#[test]
fn test_weird_config() {
    let content = r#"
# This is a comment
monitor=,preferred,auto,1
monitor = DP-1, 1920x1080@60, 0x0, 1
monitor = DP-2, 1920x1080@60, 1920x0, 1
monitor = HDMI-A-1, disable
monitor = HDMI-A-2, 3840x2160@60, 3840x0, 1.5, transform, 1
monitor = eDP-1, 1920x1080@144, 5760x0, 1

# Another comment
monitor=fake,1920x1080,0x0,1
"#;
    assert_eq!(
        parse_hyprland_position(content, "DP-1"),
        Some(SavedPosition { x: 0, y: 0 })
    );
    assert_eq!(
        parse_hyprland_position(content, "DP-2"),
        Some(SavedPosition { x: 1920, y: 0 })
    );
    assert_eq!(parse_hyprland_position(content, "HDMI-A-1"), None);
    assert_eq!(
        parse_hyprland_position(content, "HDMI-A-2"),
        Some(SavedPosition { x: 3840, y: 0 })
    );
    assert_eq!(
        parse_hyprland_position(content, "eDP-1"),
        Some(SavedPosition { x: 5760, y: 0 })
    );
}

#[test]
fn test_disable_before_enable() {
    let content = r#"
monitor = eDP-1, disable
monitor = eDP-1, 1920x1080@144, 0x0, 1
"#;
    assert_eq!(
        parse_hyprland_position(content, "eDP-1"),
        Some(SavedPosition { x: 0, y: 0 })
    );
}

#[test]
fn test_multiple_disables_and_enables() {
    let content = r#"
monitor = eDP-1, 1920x1080@144, 100x200, 1
monitor = eDP-1, disable
monitor = eDP-1, 1920x1080@144, 300x400, 1
monitor = eDP-1, disable
monitor = eDP-1, 1920x1080@144, 500x600, 1
"#;
    assert_eq!(
        parse_hyprland_position(content, "eDP-1"),
        Some(SavedPosition { x: 500, y: 600 })
    );
}

#[test]
fn test_negative_positions() {
    let content = r#"
monitor = DP-1, 1920x1080@60, -1920x0, 1
"#;
    assert_eq!(
        parse_hyprland_position(content, "DP-1"),
        Some(SavedPosition { x: -1920, y: 0 })
    );
}

#[test]
fn test_large_positions() {
    let content = r#"
monitor = DP-1, 1920x1080@60, 10000x5000, 1
"#;
    assert_eq!(
        parse_hyprland_position(content, "DP-1"),
        Some(SavedPosition { x: 10000, y: 5000 })
    );
}

#[test]
fn test_empty_config() {
    assert_eq!(parse_hyprland_position("", "eDP-1"), None);
}

#[test]
fn test_commented_monitor_lines() {
    let content = r#"
# monitor = eDP-1, 1920x1080@144, 0x0, 1
#monitor = DP-1, 1920x1080@60, 1920x0, 1
monitor = eDP-1, 1920x1080@144, 100x100, 1
"#;
    assert_eq!(
        parse_hyprland_position(content, "eDP-1"),
        Some(SavedPosition { x: 100, y: 100 })
    );
    assert_eq!(parse_hyprland_position(content, "DP-1"), None);
}

#[test]
fn test_monitor_with_special_chars() {
    let content = r#"
monitor = HDMI-A-1, 1920x1080@60, 0x0, 1
monitor = HDMI-A-2, 1920x1080@60, 1920x0, 1
"#;
    assert_eq!(
        parse_hyprland_position(content, "HDMI-A-1"),
        Some(SavedPosition { x: 0, y: 0 })
    );
    assert_eq!(
        parse_hyprland_position(content, "HDMI-A-2"),
        Some(SavedPosition { x: 1920, y: 0 })
    );
}

#[test]
fn test_whitespace_variations() {
    let content = r#"
monitor=eDP-1,1920x1080@144,0x0,1
monitor = DP-1 , 1920x1080@60 , 1920x0 , 1
monitor  =  HDMI-A-1  ,  1920x1080@60  ,  3840x0  ,  1
"#;
    assert_eq!(
        parse_hyprland_position(content, "eDP-1"),
        Some(SavedPosition { x: 0, y: 0 })
    );
    assert_eq!(
        parse_hyprland_position(content, "DP-1"),
        Some(SavedPosition { x: 1920, y: 0 })
    );
    assert_eq!(
        parse_hyprland_position(content, "HDMI-A-1"),
        Some(SavedPosition { x: 3840, y: 0 })
    );
}

#[test]
fn negative_position_line_is_read_back() {
    let content = "monitor = DP-1, 1920x1080@60, -1920x0, 1";
    assert_eq!(
        parse_hyprland_position(content, "DP-1"),
        Some(SavedPosition { x: -1920, y: 0 })
    );
}

#[test]
fn disable_after_enable_keeps_position_and_enable_after_disable_wins() {
    let content = "monitor = A, 1x1@60, 5x6, 1\nmonitor = A, disable\n";
    assert_eq!(parse_hyprland_position(content, "A"), Some(SavedPosition { x: 5, y: 6 }));
    let content = "monitor = A, 1x1@60, 5x6, 1\nmonitor = A, disable\nmonitor = A, 1x1@60, 7x8, 1\n";
    assert_eq!(parse_hyprland_position(content, "A"), Some(SavedPosition { x: 7, y: 8 }));
}

#[test]
fn xy_position_edge_cases() {
    assert_eq!(parse_xy_position(" 12 x -3 "), Some((12, -3)));
    assert_eq!(parse_xy_position("+5x+6"), Some((5, 6)));
    assert_eq!(parse_xy_position("2147483647x-2147483648"), Some((i32::MAX, i32::MIN)));
    assert_eq!(parse_xy_position("2147483648x0"), None);
    assert_eq!(parse_xy_position("1x2x3"), None);
    assert_eq!(parse_xy_position("x1"), None);
    assert_eq!(parse_xy_position("-x1"), None);
}

#[test]
fn sway_block_position() {
    let content = "output DP-1 {\n    mode 1920x1080@60Hz\n    pos 1920 0\n}\noutput eDP-1 pos 0 0\n";
    assert_eq!(parse_sway_position(content, "DP-1"), Some(SavedPosition { x: 1920, y: 0 }));
    assert_eq!(parse_sway_position(content, "eDP-1"), Some(SavedPosition { x: 0, y: 0 }));
    assert_eq!(parse_sway_position(content, "HDMI-A-1"), None);
}

#[test]
fn sway_first_position_in_block_wins_and_block_closes() {
    let content = "output A {\n pos 1 2\n pos 3 4\n}\n pos 9 9\noutput B disable\n";
    assert_eq!(parse_sway_position(content, "A"), Some(SavedPosition { x: 1, y: 2 }));
    assert_eq!(parse_sway_position(content, "B"), None);
}

#[test]
fn saved_position_by_dialect() {
    let hypr = "monitor = A, 1x1@60, -5x7, 1\n";
    assert_eq!(
        get_saved_monitor_position(Compositor::Hyprland, hypr, "A"),
        Some(SavedPosition { x: -5, y: 7 })
    );
    assert_eq!(get_saved_monitor_position(Compositor::River, hypr, "A"), None);
    assert_eq!(get_saved_monitor_position(Compositor::Unknown, hypr, "A"), None);
    assert_eq!(
        get_saved_monitor_position(Compositor::Sway, "output A pos 3 4\n", "A"),
        Some(SavedPosition { x: 3, y: 4 })
    );
}
