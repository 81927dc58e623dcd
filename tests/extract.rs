use xwlm::compositor::Compositor;
use xwlm::extract::{extract_filename, extract_monitors, resolve_path, source_targets};
use xwlm::setup::extraction_result;

#[test]
fn test_extract_filename_with_tilde() {
    assert_eq!(extract_filename("~/.config/hypr/monitors.conf"), "monitors.conf");
}

#[test]
fn test_extract_filename_with_absolute() {
    assert_eq!(
        extract_filename("/home/user/.config/hypr/monitors.conf"),
        "monitors.conf"
    );
}

#[test]
fn test_extract_filename_relative() {
    assert_eq!(extract_filename("monitors.conf"), "monitors.conf");
}

#[test]
fn test_extract_filename_with_spaces() {
    assert_eq!(extract_filename("  ~/.config/hypr/monitors.conf  "), "monitors.conf");
}

#[test]
fn test_extract_filename_nested() {
    assert_eq!(extract_filename("~/.config/hypr/subdir/monitors.conf"), "monitors.conf");
}

const MAIN: &str = "# main\nmonitor = DP-1, 1920x1080@60, 0x0, 1\n$mod = SUPER\nmonitor=HDMI-A-1,1920x1080@60,1920x0,1\nbind = $mod, Q, exec, kitty\nmonitor = eDP-1, disable\n";

#[test]
fn extraction_moves_three_monitor_lines_and_adds_source() {
    let plan = extract_monitors("/home/u/.config/hypr/hyprland.conf", Compositor::Hyprland, "monitors.conf", MAIN, &[]).unwrap();
    assert!(plan.has_monitors());
    assert_eq!(
        plan.output_content,
        "monitor = DP-1, 1920x1080@60, 0x0, 1\nmonitor=HDMI-A-1,1920x1080@60,1920x0,1\nmonitor = eDP-1, disable\n"
    );
    assert_eq!(plan.modified_files.len(), 1);
    assert_eq!(plan.modified_files[0].0, "/home/u/.config/hypr/hyprland.conf");
    assert_eq!(plan.modified_files[0].1, "# main\n$mod = SUPER\nbind = $mod, Q, exec, kitty\n");
    assert_eq!(plan.source_line.as_deref(), Some("source = /home/u/.config/hypr/monitors.conf"));
    assert!(!plan.source_exists);
    let writes = plan.planned_writes(MAIN).unwrap();
    assert_eq!(writes.len(), 2);
    assert_eq!(writes[0].0, "/home/u/.config/hypr/monitors.conf");
    assert_eq!(writes[0].1, plan.output_content);
    assert_eq!(
        writes[1].1,
        "# main\n$mod = SUPER\nbind = $mod, Q, exec, kitty\n\nsource = /home/u/.config/hypr/monitors.conf\n"
    );
    let res = extraction_result(plan, Compositor::Hyprland).unwrap();
    assert_eq!(res.monitor_count, 3);
    assert!(!res.already_consolidated);
    assert_eq!(res.output_path, "/home/u/.config/hypr/monitors.conf");
}

#[test]
fn extraction_of_consolidated_config_is_a_no_op() {
    let main_path = "/home/u/.config/hypr/hyprland.conf";
    let first = extract_monitors(main_path, Compositor::Hyprland, "monitors.conf", MAIN, &[]).unwrap();
    let writes = first.planned_writes(MAIN).unwrap();
    let dedicated = writes[0].1.clone();
    let new_main = writes[1].1.clone();
    let targets = source_targets(Compositor::Hyprland, &new_main);
    assert_eq!(targets, vec!["/home/u/.config/hypr/monitors.conf".to_string()]);
    let sourced = vec![(writes[0].0.clone(), dedicated.clone())];
    let again = extract_monitors(main_path, Compositor::Hyprland, "monitors.conf", &new_main, &sourced).unwrap();
    assert!(again.source_exists);
    assert!(again.source_line.is_none());
    assert_eq!(again.output_content, dedicated);
    let res = extraction_result(again, Compositor::Hyprland).unwrap();
    assert!(res.already_consolidated);
    assert_eq!(res.source_files, vec!["/home/u/.config/hypr/monitors.conf".to_string()]);
}

#[test]
fn sway_output_blocks_are_extracted() {
    let main = "set $mod Mod4\noutput DP-1 {\n    pos 0 0\n}\noutput eDP-1 disable\ninclude ~/.config/sway/output.conf\n";
    let plan = extract_monitors("/c/sway/config", Compositor::Sway, "output.conf", main, &[]).unwrap();
    assert_eq!(plan.output_content, "output DP-1 {\n    pos 0 0\n}\noutput eDP-1 disable\n");
    assert!(plan.source_exists);
    assert!(plan.source_line.is_none());
    assert_eq!(plan.modified_files[0].1, "set $mod Mod4\ninclude ~/.config/sway/output.conf\n");
}

#[test]
fn extraction_for_unsupported_compositor_fails() {
    let r = extract_monitors("/c/river/init", Compositor::River, "monitors.conf", "", &[]);
    assert_eq!(r.err(), Some("Config extraction not supported for River".to_string()));
}

#[test]
fn planned_writes_errors() {
    let plan = extract_monitors("/c/hypr/hyprland.conf", Compositor::Hyprland, "monitors.conf", "bind = a\n", &[]).unwrap();
    assert!(!plan.has_monitors());
    assert_eq!(plan.planned_writes("bind = a\n").err(), Some("No monitor configuration found to extract".to_string()));
    let plan = extract_monitors("", Compositor::Hyprland, "monitors.conf", "monitor = A, disable\n", &[]).unwrap();
    assert_eq!(plan.planned_writes("").err(), Some("Cannot determine config directory".to_string()));
}

#[test]
fn main_config_without_directives_gets_source_line() {
    let sourced = vec![("/c/hypr/other.conf".to_string(), "monitor = A, disable\nx = 1".to_string())];
    let plan = extract_monitors("/c/hypr/hyprland.conf", Compositor::Hyprland, "monitors.conf", "source = ./other.conf", &sourced).unwrap();
    let writes = plan.planned_writes("source = ./other.conf").unwrap();
    assert_eq!(writes.len(), 3);
    assert_eq!(writes[1], ("/c/hypr/other.conf".to_string(), "x = 1".to_string()));
    assert_eq!(writes[2].1, "source = ./other.conf\n\nsource = /c/hypr/monitors.conf\n");
}

#[test]
fn paths_resolve_against_home_and_base() {
    assert_eq!(resolve_path("/c/hypr", "~/x.conf", Some("/home/u")), "/home/u/x.conf");
    assert_eq!(resolve_path("/c/hypr", "~/x.conf", None), "/c/hypr/~/x.conf");
    assert_eq!(resolve_path("/c/hypr", " /abs.conf ", Some("/h")), "/abs.conf");
    assert_eq!(resolve_path("/c/hypr/", "rel.conf", None), "/c/hypr/rel.conf");
}
