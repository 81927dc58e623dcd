use xwlm::compositor::Compositor;
use xwlm::workspace_config::{
    extract_monitor_name, parse_hyprland_workspaces, parse_sway_workspaces, parse_workspace_config,
};

#[test]
fn test_parse_hyprland_workspace_with_persistence() {
    let content = r#"
workspace=1,monitor:"DP-1",default:true,persistent:true
workspace=2,monitor:"DP-1",persistent:true
workspace=3,monitor:"HDMI-A-1",persistent:true
"#;
    let result = parse_hyprland_workspaces(content);
    assert_eq!(result.len(), 3);
    assert_eq!(result[0].id, 1);
    assert_eq!(result[0].monitor, "DP-1");
    assert!(result[0].is_default);
    assert!(result[0].is_persistent);

    assert_eq!(result[1].id, 2);
    assert!(!result[1].is_default);
    assert!(result[1].is_persistent);

    assert_eq!(result[2].id, 3);
    assert!(result[2].is_persistent);
}

#[test]
fn test_parse_hyprland_workspace_simple() {
    let content = r#"
workspace = 1, monitor:HDMI-A-1
workspace = 2, monitor:eDP-1
"#;
    let result = parse_hyprland_workspaces(content);
    assert_eq!(result.len(), 2);
    assert_eq!(result[0].id, 1);
    assert_eq!(result[0].monitor, "HDMI-A-1");
    assert!(!result[0].is_default);
    assert!(!result[0].is_persistent);
}

#[test]
fn test_extract_monitor_name() {
    assert_eq!(
        extract_monitor_name(r#"monitor:"HDMI-A-1",default:true,persistent:true"#),
        "HDMI-A-1"
    );
    assert_eq!(
        extract_monitor_name("monitor:HDMI-A-1,persistent:true"),
        "HDMI-A-1"
    );
    assert_eq!(extract_monitor_name("monitor:eDP-1"), "eDP-1");
}

#[test]
fn monitor_name_without_prefix_is_first_field() {
    assert_eq!(extract_monitor_name(" DP-2 ,default:true"), "DP-2");
}

#[test]
fn sway_workspace_rules() {
    let content = "workspace 1 output DP-1\n# workspace 2 output X\nworkspace 3 output  HDMI-A-1 \nworkspace x output Y\n";
    let rules = parse_sway_workspaces(content);
    assert_eq!(rules.len(), 2);
    assert_eq!(rules[0].id, 1);
    assert_eq!(rules[0].monitor, "DP-1");
    assert_eq!(rules[1].id, 3);
    assert_eq!(rules[1].monitor, "HDMI-A-1");
    assert!(!rules[1].is_default && !rules[1].is_persistent);
}

#[test]
fn malformed_workspace_lines_are_skipped() {
    let content = "workspace = x, monitor:A\nworkspace 1, monitor:B\nworkspace = 4 monitor:C\nworkspace = 5, monitor:D\n";
    let rules = parse_hyprland_workspaces(content);
    assert_eq!(rules.len(), 1);
    assert_eq!(rules[0].id, 5);
    assert_eq!(rules[0].monitor, "D");
}

#[test]
fn workspace_rules_by_dialect() {
    assert_eq!(parse_workspace_config(Compositor::River, "workspace = 1, monitor:A").len(), 0);
    assert_eq!(parse_workspace_config(Compositor::Hyprland, "workspace = 1, monitor:A").len(), 1);
    assert_eq!(parse_workspace_config(Compositor::Sway, "workspace 2 output A").len(), 1);
}
