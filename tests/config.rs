use xwlm::config::{default_workspace_count, expand_tilde, monitor_config_exists};
use xwlm::setup::{manual_enter, ManualStep};
use xwlm::utils::{self, UtilsError};

#[test]
fn test_expand_tilde_with_tilde() {
    let home = "/home/tester";
    let result = expand_tilde("~/some/path", Some(home));
    assert_eq!(result, format!("{}/some/path", home));
}

#[test]
fn test_expand_tilde_without_tilde() {
    let result = expand_tilde("/absolute/path", Some("/home/tester"));
    assert_eq!(result, "/absolute/path");
}

#[test]
fn test_expand_tilde_empty_string() {
    let result = expand_tilde("", Some("/home/tester"));
    assert_eq!(result, "");
}

#[test]
fn test_expand_tilde_just_tilde() {
    let result = expand_tilde("~", Some("/home/tester"));
    assert_eq!(result, "~");
}

#[test]
fn test_expand_tilde_tilde_slash_only() {
    let home = "/home/tester";
    let result = expand_tilde("~/", Some(home));
    assert_eq!(result, format!("{}/", home));
}

#[test]
fn test_monitor_config_exists_with_nonexistent_file() {
    assert!(!monitor_config_exists("/nonexistent/path/to/monitors.conf", None));
}

#[test]
fn expand_tilde_without_home_keeps_path() {
    assert_eq!(expand_tilde("~/x", None), "~/x");
}

#[test]
fn default_count_is_ten() {
    assert_eq!(default_workspace_count(), 10);
}

#[test]
fn strict_expansion_errors() {
    assert_eq!(utils::expand_tilde("/abs", Some("/h")), Err(UtilsError::NoTilde));
    assert_eq!(utils::expand_tilde("~/a", None), Err(UtilsError::NoHome));
    assert_eq!(utils::expand_tilde("~/a/b", Some("/h")), Ok("/h/a/b".to_string()));
    assert_eq!(UtilsError::NoHome.message(), "no home variable was found");
    assert!(!utils::monitor_config_exists("~/x", None));
}

#[test]
fn manual_setup_steps() {
    assert_eq!(manual_enter("   ", true, Some("/h")), ManualStep::EmptyPath);
    assert_eq!(manual_enter(" ~/m.conf ", false, Some("/h")), ManualStep::AskConfirm);
    assert_eq!(manual_enter(" ~/m.conf ", true, Some("/h")), ManualStep::Check("/h/m.conf".to_string()));
    assert_eq!(manual_enter("~/m.conf", true, None), ManualStep::BadPath(UtilsError::NoHome));
    assert_eq!(manual_enter("/etc/m.conf", true, None), ManualStep::BadPath(UtilsError::NoTilde));
}
