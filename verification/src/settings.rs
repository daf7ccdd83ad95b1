//! Application settings that take effect at once (full-screen pause, volume,
//! display mode) and the settings of the trash clean-up at start-up.
use vstd::prelude::*;

use crate::scheduler::TimerStep;
use crate::text::{parse_i64, parse_i64_spec, parse_u32, parse_u32_spec, str_eq};

verus! {

/// Setting key: pause wallpapers while an application is full screen.
pub const PAUSE_ON_FULLSCREEN: &'static str = "pause_on_fullscreen";
/// Setting key: volume of video wallpapers, 0 to 100.
pub const GLOBAL_VOLUME: &'static str = "global_volume";
/// Setting key: `independent`, `mirror` or `extend`.
pub const DISPLAY_MODE: &'static str = "display_mode";
/// Setting key: whether expired trash is purged at start-up.
pub const TRASH_AUTO_PURGE: &'static str = "trash_auto_purge";
/// Setting key: days a wallpaper stays in the trash.
pub const TRASH_RETENTION_DAYS: &'static str = "trash_retention_days";

/// Days a wallpaper stays in the trash when no valid setting says otherwise.
pub const DEFAULT_TRASH_RETENTION_DAYS: i64 = 30;

/// The immediate effect of writing a setting.
#[derive(Debug, Clone, Copy, PartialEq, Eq, Structural)]
pub enum SettingEffect {
    /// Turn full-screen detection on or off.
    Fullscreen(bool),
    /// Tell every wallpaper window the new volume.
    Volume(u32),
    /// Re-plan the monitors for the new display mode.
    DisplayMode,
    /// The setting is only stored.
    NoEffect,
}

/// The volume a stored value sets: the number it holds, 0 when it holds none,
/// at most 100.
pub open spec fn volume_spec(value: Seq<char>) -> u32 {
    match parse_u32_spec(value) {
        Some(v) => if v > 100 {
            100
        } else {
            v
        },
        None => 0,
    }
}

/// The effect of setting `key` to `value`.
pub fn setting_effect(key: &str, value: &str) -> (r: SettingEffect)
    ensures
        r == (if key@ == PAUSE_ON_FULLSCREEN@ {
            SettingEffect::Fullscreen(value@ == "true"@)
        } else if key@ == GLOBAL_VOLUME@ {
            SettingEffect::Volume(volume_spec(value@))
        } else if key@ == DISPLAY_MODE@ {
            SettingEffect::DisplayMode
        } else {
            SettingEffect::NoEffect
        }),
{
    if str_eq(key, PAUSE_ON_FULLSCREEN) {
        SettingEffect::Fullscreen(str_eq(value, "true"))
    } else if str_eq(key, GLOBAL_VOLUME) {
        let v = match parse_u32(value) {
            Some(v) => v,
            None => 0,
        };
        SettingEffect::Volume(
            if v > 100 {
                100
            } else {
                v
            },
        )
    } else if str_eq(key, DISPLAY_MODE) {
        SettingEffect::DisplayMode
    } else {
        SettingEffect::NoEffect
    }
}

/// What happens to the full-screen poller when detection is switched
/// `enabled`: started if not running, stopped when switched off.
pub fn fullscreen_timer_step(enabled: bool, running: bool) -> (r: TimerStep)
    ensures
        r == (if !enabled {
            TimerStep::Stop
        } else if running {
            TimerStep::Keep
        } else {
            TimerStep::Start
        }),
{
    if !enabled {
        TimerStep::Stop
    } else if running {
        TimerStep::Keep
    } else {
        TimerStep::Start
    }
}

/// Whether the stored full-screen setting (absent or unreadable as `None`)
/// turns detection on at start-up: only the value `true` does.
pub fn fullscreen_enabled(stored: Option<&str>) -> (r: bool)
    ensures
        r == (match stored {
            Some(v) => v@ == "true"@,
            None => false,
        }),
{
    match stored {
        Some(v) => str_eq(v, "true"),
        None => false,
    }
}

/// Whether expired trash is purged: unless the setting is exactly `false`.
pub fn trash_auto_purge(stored: Option<&str>) -> (r: bool)
    ensures
        r == (match stored {
            Some(v) => v@ != "false"@,
            None => true,
        }),
{
    match stored {
        Some(v) => !str_eq(v, "false"),
        None => true,
    }
}

/// The retention in days: the stored integer, else the default.
pub fn trash_retention_days(stored: Option<&str>) -> (r: i64)
    ensures
        r == (match stored {
            Some(v) => match parse_i64_spec(v@) {
                Some(d) => d,
                None => DEFAULT_TRASH_RETENTION_DAYS,
            },
            None => DEFAULT_TRASH_RETENTION_DAYS,
        }),
{
    match stored {
        Some(v) => match parse_i64(v) {
            Some(d) => d,
            None => DEFAULT_TRASH_RETENTION_DAYS,
        },
        None => DEFAULT_TRASH_RETENTION_DAYS,
    }
}

/// Whether a purge with `retention_days` deletes anything at all: a
/// retention of zero days or less keeps the trash as it is.
pub fn purge_applies(retention_days: i64) -> (r: bool)
    ensures
        r == (retention_days > 0),
{
    retention_days > 0
}

} // verus!
