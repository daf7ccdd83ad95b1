use mini_wallpaper::action::Action;
use mini_wallpaper::shortcuts::{
    current_accelerator, default_shortcuts, resolve_action, ShortcutThrottle,
    SHORTCUT_NEXT_WALLPAPER, SHORTCUT_THROTTLE_NANOS,
};

#[test]
fn default_bindings() {
    let d = default_shortcuts();
    assert_eq!(d.len(), 5);
    assert_eq!(d[0].setting_key, SHORTCUT_NEXT_WALLPAPER);
    assert_eq!(d[0].default_accelerator, "CmdOrCtrl+Alt+Right");
    assert_eq!(d[0].action, Action::Next);
    assert_eq!(d[4].action, Action::ToggleFavorite);
    assert!(d.iter().all(|s| s.action != Action::Quit));
}

#[test]
fn stored_binding_wins_unless_blank() {
    assert_eq!(current_accelerator(Some("Alt+N".to_string()), "CmdOrCtrl+Alt+Right"), "Alt+N");
    assert_eq!(current_accelerator(Some("  ".to_string()), "CmdOrCtrl+Alt+Right"), "CmdOrCtrl+Alt+Right");
    assert_eq!(current_accelerator(None, "X"), "X");
}

#[test]
fn first_matching_binding_decides() {
    assert_eq!(resolve_action(&vec![false, true, true, false, false]), Some(Action::Prev));
    assert_eq!(resolve_action(&vec![false, false, false, false, true]), Some(Action::ToggleFavorite));
    assert_eq!(resolve_action(&vec![false; 5]), None);
}

#[test]
fn repeated_presses_are_throttled() {
    let mut t = ShortcutThrottle::new();
    assert!(t.should_fire(1, 1_000));
    assert!(!t.should_fire(1, 1_000 + SHORTCUT_THROTTLE_NANOS - 1));
    assert!(t.should_fire(2, 1_001));
    assert!(t.should_fire(1, 1_000 + SHORTCUT_THROTTLE_NANOS));
    assert!(!t.should_fire(1, 5));
}
