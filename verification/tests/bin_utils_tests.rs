use pcg::bin_utils::Target;

#[test]
fn target_profile_dir_strings() {
    assert_eq!(Target::Debug.profile_dir(), "debug");
    assert_eq!(Target::Release.profile_dir(), "release");
}

#[test]
fn target_cargo_flag() {
    assert_eq!(Target::Debug.cargo_flag(), None);
    assert_eq!(Target::Release.cargo_flag(), Some("--release"));
}

use pcg::bin_utils::{find_pcg_bin, find_pcg_bin_for_server, join_path, pcg_bin_name, server_dev_candidate, target_dir};

#[test]
fn find_pcg_bin_default_layout() {
    let dir = target_dir(None);
    assert_eq!(dir, "target");
    let path = find_pcg_bin("/some/ws", &dir, Target::Debug, false);
    assert_eq!(path, format!("/some/ws/target/debug/{}", pcg_bin_name(false)));
}

#[test]
fn find_pcg_bin_absolute_target_dir_replaces_workspace() {
    let dir = target_dir(Some("/custom/target"));
    let path = find_pcg_bin("/some/ws", &dir, Target::Release, false);
    assert_eq!(path, "/custom/target/release/pcg_bin");
}

#[test]
fn pcg_bin_name_on_windows_has_exe_suffix() {
    assert_eq!(pcg_bin_name(true), "pcg_bin.exe");
    assert_eq!(pcg_bin_name(false), "pcg_bin");
}

#[test]
fn join_path_inserts_one_separator() {
    assert_eq!(join_path("a", "b"), "a/b");
    assert_eq!(join_path("a/", "b"), "a/b");
    assert_eq!(join_path("", "b"), "b");
    assert_eq!(join_path("a", "/b"), "/b");
}

#[test]
fn server_binary_prefers_explicit_then_dev_layout() {
    assert_eq!(find_pcg_bin_for_server(Some("/x/pcg_bin"), "target", true, false), "/x/pcg_bin");
    assert_eq!(find_pcg_bin_for_server(None, "target", true, false), "../pcg-bin/target/release/pcg_bin");
    assert_eq!(server_dev_candidate("target", false), "../pcg-bin/target/release/pcg_bin");
    assert_eq!(find_pcg_bin_for_server(None, "target", false, false), "../target/release/pcg_bin");
}

use pcg::driver::should_check_body;

#[test]
fn bodies_are_checked_within_limits() {
    assert!(should_check_body(false, None, true, 100));
    assert!(!should_check_body(true, None, true, 1));
    assert!(should_check_body(true, None, false, 1));
    assert!(should_check_body(false, Some(5), false, 5));
    assert!(!should_check_body(false, Some(5), false, 6));
}

#[test]
fn find_pcg_bin_with_relative_cargo_target_dir() {
    let dir = target_dir(Some("custom_target"));
    let path = find_pcg_bin("/some/ws", &dir, Target::Debug, false);
    assert_eq!(path, format!("/some/ws/custom_target/debug/{}", pcg_bin_name(false)));
}
