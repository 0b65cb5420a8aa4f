use ccm::tui::{Action, App, Key, PopupType};
use ccm::update::{asset_name, compare_versions, detect_platform, plan_update, UpdatePlan, VersionError};
use std::cmp::Ordering;

fn app(names: &[&str], current: Option<&str>) -> App {
    App::new(names.iter().map(|s| s.to_string()).collect(), current.map(|s| s.to_string()))
}

#[test]
fn selection_wraps_both_ways() {
    let mut a = app(&["a", "b", "c"], None);
    a.select_previous();
    assert_eq!(a.selected_profile, 2);
    a.select_next();
    assert_eq!(a.selected_profile, 0);
    a.select_next();
    assert_eq!(a.get_selected_profile_name(), Some("b"));
    let mut empty = app(&[], None);
    empty.select_next();
    empty.select_previous();
    assert_eq!(empty.selected_profile, 0);
    assert_eq!(empty.get_selected_profile_name(), None);
}

#[test]
fn refresh_keeps_selection_in_range() {
    let mut a = app(&["a", "b", "c"], None);
    a.selected_profile = 2;
    a.refresh_profiles(vec!["a".to_string()], Some("a".to_string()));
    assert_eq!(a.selected_profile, 0);
    assert_eq!(a.current_profile, Some("a".to_string()));
}

#[test]
fn message_times_out_after_a_second() {
    let mut a = app(&["a"], None);
    a.show_message("hi".to_string(), 5_000);
    a.update_message_timeout(5_999);
    assert_eq!(a.message, Some("hi".to_string()));
    a.update_message_timeout(6_000);
    assert_eq!(a.message, None);
    assert_eq!(a.message_timeout, None);
}

#[test]
fn enter_on_active_profile_says_so() {
    let mut a = app(&["a", "b"], Some("a"));
    let act = a.handle_key(Key::Enter, 10);
    assert!(matches!(act, Action::Nothing));
    assert_eq!(a.message, Some("Already using profile 'a'".to_string()));
    assert!(a.show_popup.is_none());
}

#[test]
fn switch_dialog_flow() {
    let mut a = app(&["a", "b"], Some("a"));
    a.handle_key(Key::Down, 0);
    a.handle_key(Key::Enter, 0);
    assert!(matches!(&a.show_popup, Some(PopupType::ConfirmSwitch(n)) if n == "b"));
    a.handle_key(Key::Right, 0);
    assert!(!a.popup_selection);
    assert!(matches!(a.handle_key(Key::Enter, 0), Action::Nothing));
    assert!(a.show_popup.is_none());
    assert!(a.popup_selection);
    a.handle_key(Key::Enter, 0);
    let act = a.handle_key(Key::Enter, 0);
    assert!(matches!(act, Action::Switch(ref n) if n == "b"));
    a.finish_action(&act, None, 7);
    assert_eq!(a.message, Some("Switched to profile 'b'".to_string()));
}

#[test]
fn add_and_rename_dialogs_collect_a_name() {
    let mut a = app(&["a"], None);
    a.handle_key(Key::Char('a'), 0);
    assert!(matches!(a.show_popup, Some(PopupType::AddProfile)));
    assert!(matches!(a.handle_key(Key::Enter, 0), Action::Nothing));
    assert!(matches!(a.show_popup, Some(PopupType::AddProfile)));
    assert_eq!(a.input_buffer, "");
    for c in ['n', 'e', 'x'] {
        a.handle_key(Key::Char(c), 0);
    }
    a.handle_key(Key::Backspace, 0);
    a.handle_key(Key::Char('w'), 0);
    let act = a.handle_key(Key::Enter, 0);
    assert!(matches!(act, Action::Add(ref n) if n == "new"));
    assert!(a.show_popup.is_none());
    assert_eq!(a.input_buffer, "");
    a.finish_action(&act, Some("boom".to_string()), 1);
    assert_eq!(a.message, Some("Failed to add profile: boom".to_string()));

    a.handle_key(Key::Char('r'), 0);
    a.handle_key(Key::Char('z'), 0);
    let act = a.handle_key(Key::Enter, 0);
    assert!(matches!(act, Action::Rename { ref from, ref to } if from == "a" && to == "z"));
    a.finish_action(&act, None, 2);
    assert_eq!(a.message, Some("Profile renamed to 'z'".to_string()));
}

#[test]
fn delete_show_launch_and_quit_keys() {
    let mut a = app(&["a"], None);
    a.handle_key(Key::Char('d'), 0);
    a.handle_key(Key::Char('x'), 0);
    assert!(matches!(&a.show_popup, Some(PopupType::ConfirmDelete(n)) if n == "a"));
    let act = a.handle_key(Key::Char('y'), 0);
    assert!(matches!(act, Action::Remove(ref n) if n == "a"));
    a.finish_action(&act, None, 3);
    assert_eq!(a.message, Some("Profile 'a' deleted".to_string()));
    a.handle_key(Key::Char('s'), 0);
    assert!(matches!(&a.show_popup, Some(PopupType::ShowProfile(n)) if n == "a"));
    a.handle_key(Key::Esc, 0);
    assert!(a.show_popup.is_none());
    assert!(matches!(a.handle_key(Key::Char('l'), 0), Action::Launch));
    a.finish_action(&Action::Launch, Some("no binary".to_string()), 4);
    assert_eq!(a.message, Some("Failed to launch the assistant: no binary".to_string()));
    a.handle_key(Key::Char('q'), 0);
    assert!(a.should_quit);
}

#[test]
fn platform_names() {
    assert_eq!(detect_platform("linux", "x86_64"), Some("Linux-X64".to_string()));
    assert_eq!(detect_platform("macos", "aarch64"), Some("macOS-ARM64".to_string()));
    assert_eq!(detect_platform("windows", "x86_64"), None);
    assert_eq!(detect_platform("linux", "riscv64"), None);
}

#[test]
fn versions_compare_ignoring_leading_v() {
    assert_eq!(compare_versions("v1.2.3", "1.3.0"), Ok(Ordering::Less));
    assert_eq!(compare_versions("1.0.0", "v1.0.0"), Ok(Ordering::Equal));
    assert_eq!(compare_versions("2.0.0", "v1.9.9"), Ok(Ordering::Greater));
    assert_eq!(compare_versions("bad", "1.0.0"), Err(VersionError::Current));
    assert_eq!(compare_versions("1.0.0", "v1"), Err(VersionError::Latest));
}

#[test]
fn update_plans() {
    assert_eq!(asset_name("v1.2.0", "Linux-X64"), "ccm-v1.2.0-Linux-X64.tar.gz");
    let assets = vec!["ccm-v1.2.0-macOS-ARM64.tar.gz".to_string(), "ccm-v1.2.0-Linux-X64.tar.gz".to_string()];
    assert!(matches!(plan_update(Ordering::Less, false, "v1.2.0", "Linux-X64", &assets), UpdatePlan::Install(1)));
    assert!(matches!(plan_update(Ordering::Less, true, "v1.2.0", "Linux-X64", &assets), UpdatePlan::Available));
    assert!(matches!(plan_update(Ordering::Equal, false, "v1.2.0", "Linux-X64", &assets), UpdatePlan::UpToDate));
    assert!(matches!(plan_update(Ordering::Greater, false, "v1.2.0", "Linux-X64", &assets), UpdatePlan::AheadOfRelease));
    match plan_update(Ordering::Less, false, "v1.2.0", "Linux-ARM64", &assets) {
        UpdatePlan::NoAsset(n) => assert_eq!(n, "ccm-v1.2.0-Linux-ARM64.tar.gz"),
        other => panic!("unexpected {:?}", other),
    }
}

