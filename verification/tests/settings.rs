use mini_wallpaper::scheduler::TimerStep;
use mini_wallpaper::settings::{
    fullscreen_enabled, fullscreen_timer_step, purge_applies, setting_effect, trash_auto_purge,
    trash_retention_days, SettingEffect, DEFAULT_TRASH_RETENTION_DAYS, DISPLAY_MODE, GLOBAL_VOLUME,
    PAUSE_ON_FULLSCREEN,
};

#[test]
fn setting_effects() {
    assert_eq!(setting_effect(PAUSE_ON_FULLSCREEN, "true"), SettingEffect::Fullscreen(true));
    assert_eq!(setting_effect(PAUSE_ON_FULLSCREEN, "yes"), SettingEffect::Fullscreen(false));
    assert_eq!(setting_effect(GLOBAL_VOLUME, "35"), SettingEffect::Volume(35));
    assert_eq!(setting_effect(GLOBAL_VOLUME, "250"), SettingEffect::Volume(100));
    assert_eq!(setting_effect(GLOBAL_VOLUME, "loud"), SettingEffect::Volume(0));
    assert_eq!(setting_effect(DISPLAY_MODE, "mirror"), SettingEffect::DisplayMode);
    assert_eq!(setting_effect("theme", "dark"), SettingEffect::NoEffect);
}

#[test]
fn fullscreen_poller() {
    assert_eq!(fullscreen_timer_step(false, true), TimerStep::Stop);
    assert_eq!(fullscreen_timer_step(true, true), TimerStep::Keep);
    assert_eq!(fullscreen_timer_step(true, false), TimerStep::Start);
    assert!(fullscreen_enabled(Some("true")));
    assert!(!fullscreen_enabled(Some("1")));
    assert!(!fullscreen_enabled(None));
}

#[test]
fn trash_settings() {
    assert!(trash_auto_purge(None));
    assert!(trash_auto_purge(Some("true")));
    assert!(!trash_auto_purge(Some("false")));
    assert_eq!(trash_retention_days(None), DEFAULT_TRASH_RETENTION_DAYS);
    assert_eq!(trash_retention_days(Some("7")), 7);
    assert_eq!(trash_retention_days(Some("-2")), -2);
    assert_eq!(trash_retention_days(Some("week")), 30);
    assert!(purge_applies(1));
    assert!(!purge_applies(0));
    assert!(!purge_applies(-5));
}
