use mini_wallpaper::action::{
    action_for_menu_id, action_name, pause_message, resolve_action_targets, toast_message, Action,
    PausedMonitors, ID_NEXT, ID_OPEN_MAIN, ID_PREV, ID_QUIT, ID_TOGGLE_FAVORITE, ID_TOGGLE_PAUSE,
};
use mini_wallpaper::monitor_config::MonitorConfig;

fn config(mid: &str, active: bool) -> MonitorConfig {
    MonitorConfig {
        id: 1,
        monitor_id: mid.to_string(),
        display_mode: "independent".to_string(),
        wallpaper_id: None,
        collection_id: Some(1),
        fit_mode: "cover".to_string(),
        play_mode: "sequential".to_string(),
        play_interval: 300,
        is_enabled: true,
        active,
        updated_at: String::new(),
    }
}

#[test]
fn tray_menu_ids() {
    assert_eq!(action_for_menu_id(ID_NEXT), Some(Action::Next));
    assert_eq!(action_for_menu_id(ID_PREV), Some(Action::Prev));
    assert_eq!(action_for_menu_id(ID_TOGGLE_PAUSE), Some(Action::TogglePause));
    assert_eq!(action_for_menu_id(ID_TOGGLE_FAVORITE), Some(Action::ToggleFavorite));
    assert_eq!(action_for_menu_id(ID_OPEN_MAIN), Some(Action::OpenMain));
    assert_eq!(action_for_menu_id(ID_QUIT), Some(Action::Quit));
    assert_eq!(action_for_menu_id("tray_other"), None);
}

#[test]
fn toasts_and_names() {
    assert_eq!(toast_message(Action::Next), Some("已切换下一张壁纸"));
    assert_eq!(toast_message(Action::Prev), Some("已切换上一张壁纸"));
    assert_eq!(toast_message(Action::Quit), None);
    assert_eq!(pause_message(true), "已暂停轮播");
    assert_eq!(pause_message(false), "已恢复轮播");
    assert_eq!(action_name(Action::TogglePause), "togglePause");
    assert_eq!(action_name(Action::ToggleFavorite), "toggleFavorite");
    assert_eq!(action_name(Action::OpenMain), "openMain");
}

#[test]
fn action_targets() {
    let configs = vec![config("A", false), config("B", true), config("C", true)];
    assert_eq!(resolve_action_targets(&configs, true, Some("C")), vec![1]);
    assert_eq!(resolve_action_targets(&configs, false, Some("C")), vec![2]);
    assert!(resolve_action_targets(&configs, false, Some("A")).is_empty());
    assert!(resolve_action_targets(&configs, false, None).is_empty());
    assert!(resolve_action_targets(&vec![config("A", false)], true, None).is_empty());
}

#[test]
fn pause_toggles_twice_back() {
    let mut p = PausedMonitors::new();
    assert!(!p.contains("A"));
    assert!(p.toggle("A"));
    assert!(p.contains("A"));
    assert!(p.toggle("B"));
    assert!(!p.toggle("A"));
    assert!(!p.contains("A"));
    assert!(p.contains("B"));
}
