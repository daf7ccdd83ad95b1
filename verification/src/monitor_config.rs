//! The per-monitor configuration record, how an update or insert request
//! changes it, and the carousel facts derived from it.
use vstd::prelude::*;

use crate::text::str_eq;

verus! {

/// Configuration of one physical monitor.
pub struct MonitorConfig {
    /// Row id in the store.
    pub id: i32,
    /// Device name of the monitor.
    pub monitor_id: String,
    /// `independent`, `mirror` or `extend`.
    pub display_mode: String,
    /// The wallpaper shown now.
    pub wallpaper_id: Option<i32>,
    /// The collection the carousel plays, if any.
    pub collection_id: Option<i32>,
    /// How the picture is fitted to the screen.
    pub fit_mode: String,
    /// `sequential` or `random`.
    pub play_mode: String,
    /// Seconds between two carousel switches.
    pub play_interval: i32,
    /// The carousel master switch.
    pub is_enabled: bool,
    /// Whether the monitor is physically present.
    pub active: bool,
    /// Time of the last change, `%Y-%m-%d %H:%M:%S`.
    pub updated_at: String,
}

/// The fields an upsert request may set; `None` leaves a field as it is.
pub struct ConfigPatch {
    pub wallpaper_id: Option<i32>,
    pub collection_id: Option<i32>,
    /// `Some(true)` clears the collection (back to a single wallpaper).
    pub clear_collection: Option<bool>,
    pub display_mode: Option<String>,
    pub fit_mode: Option<String>,
    pub play_mode: Option<String>,
    pub play_interval: Option<i32>,
    pub is_enabled: Option<bool>,
    pub active: Option<bool>,
}

/// The collection a patch leaves on a config that had `old`.
pub open spec fn patched_collection(old: Option<i32>, patch: ConfigPatch) -> Option<i32> {
    if patch.clear_collection == Some(true) {
        None
    } else if patch.collection_id is Some {
        patch.collection_id
    } else {
        old
    }
}

/// A patch applied to an existing config: every field the patch carries is
/// overwritten, the others are kept, and the time stamp is renewed.
pub open spec fn patched_config(old: MonitorConfig, patch: ConfigPatch, now: String) -> MonitorConfig {
    MonitorConfig {
        id: old.id,
        monitor_id: old.monitor_id,
        display_mode: match patch.display_mode {
            Some(v) => v,
            None => old.display_mode,
        },
        wallpaper_id: if patch.wallpaper_id is Some {
            patch.wallpaper_id
        } else {
            old.wallpaper_id
        },
        collection_id: patched_collection(old.collection_id, patch),
        fit_mode: match patch.fit_mode {
            Some(v) => v,
            None => old.fit_mode,
        },
        play_mode: match patch.play_mode {
            Some(v) => v,
            None => old.play_mode,
        },
        play_interval: match patch.play_interval {
            Some(v) => v,
            None => old.play_interval,
        },
        is_enabled: match patch.is_enabled {
            Some(v) => v,
            None => old.is_enabled,
        },
        active: match patch.active {
            Some(v) => v,
            None => old.active,
        },
        updated_at: now,
    }
}

/// An update writes every field the request carries and keeps every field it
/// leaves out; the row and the monitor stay the same and the time stamp is the
/// update's. The collection is cleared on request, else set when given.
pub proof fn patch_writes_what_it_carries(old: MonitorConfig, patch: ConfigPatch, now: String)
    ensures
        ({
            let r = patched_config(old, patch, now);
            &&& r.id == old.id
            &&& r.monitor_id == old.monitor_id
            &&& r.updated_at == now
            &&& (patch.display_mode matches Some(v) ==> r.display_mode == v)
            &&& (patch.display_mode is None ==> r.display_mode == old.display_mode)
            &&& (patch.wallpaper_id matches Some(v) ==> r.wallpaper_id == Some(v))
            &&& (patch.wallpaper_id is None ==> r.wallpaper_id == old.wallpaper_id)
            &&& (patch.fit_mode matches Some(v) ==> r.fit_mode == v)
            &&& (patch.fit_mode is None ==> r.fit_mode == old.fit_mode)
            &&& (patch.play_mode matches Some(v) ==> r.play_mode == v)
            &&& (patch.play_mode is None ==> r.play_mode == old.play_mode)
            &&& (patch.play_interval matches Some(v) ==> r.play_interval == v)
            &&& (patch.play_interval is None ==> r.play_interval == old.play_interval)
            &&& (patch.is_enabled matches Some(v) ==> r.is_enabled == v)
            &&& (patch.is_enabled is None ==> r.is_enabled == old.is_enabled)
            &&& (patch.active matches Some(v) ==> r.active == v)
            &&& (patch.active is None ==> r.active == old.active)
            &&& (patch.clear_collection == Some(true) ==> r.collection_id is None)
            &&& (patch.clear_collection != Some(true) && patch.collection_id is Some ==> r.collection_id
                == patch.collection_id)
            &&& (patch.clear_collection != Some(true) && patch.collection_id is None ==> r.collection_id
                == old.collection_id)
        }),
{
}

/// Sending the same update twice leaves the config as sending it once.
pub proof fn patch_is_idempotent(old: MonitorConfig, patch: ConfigPatch, t1: String, t2: String)
    ensures
        patched_config(patched_config(old, patch, t1), patch, t2) == patched_config(old, patch, t2),
{
}

/// Applies an upsert request to an existing config.
pub fn apply_patch(old: MonitorConfig, patch: ConfigPatch, now: String) -> (r: MonitorConfig)
    ensures
        r == patched_config(old, patch, now),
{
    let collection_id = if patch.clear_collection == Some(true) {
        None
    } else if patch.collection_id.is_some() {
        patch.collection_id
    } else {
        old.collection_id
    };
    MonitorConfig {
        id: old.id,
        monitor_id: old.monitor_id,
        display_mode: match patch.display_mode {
            Some(v) => v,
            None => old.display_mode,
        },
        wallpaper_id: if patch.wallpaper_id.is_some() {
            patch.wallpaper_id
        } else {
            old.wallpaper_id
        },
        collection_id,
        fit_mode: match patch.fit_mode {
            Some(v) => v,
            None => old.fit_mode,
        },
        play_mode: match patch.play_mode {
            Some(v) => v,
            None => old.play_mode,
        },
        play_interval: match patch.play_interval {
            Some(v) => v,
            None => old.play_interval,
        },
        is_enabled: match patch.is_enabled {
            Some(v) => v,
            None => old.is_enabled,
        },
        active: match patch.active {
            Some(v) => v,
            None => old.active,
        },
        updated_at: now,
    }
}

/// The default play interval of a new config, in seconds.
pub const DEFAULT_PLAY_INTERVAL: i32 = 300;

/// The config an upsert request inserts for a monitor that has none. The
/// store assigns the row id; `id` is 0 until then. The collection is the one
/// the request names (a clear request has nothing to clear).
pub fn new_config(monitor_id: String, patch: ConfigPatch, now: String) -> (r: MonitorConfig)
    ensures
        r.id == 0,
        r.monitor_id == monitor_id,
        r.display_mode@ == (match patch.display_mode {
            Some(v) => v@,
            None => "independent"@,
        }),
        r.wallpaper_id == patch.wallpaper_id,
        r.collection_id == patch.collection_id,
        r.fit_mode@ == (match patch.fit_mode {
            Some(v) => v@,
            None => "cover"@,
        }),
        r.play_mode@ == (match patch.play_mode {
            Some(v) => v@,
            None => "sequential"@,
        }),
        r.play_interval == (match patch.play_interval {
            Some(v) => v,
            None => DEFAULT_PLAY_INTERVAL,
        }),
        r.is_enabled == (patch.is_enabled == Some(true)),
        r.active == (patch.active == Some(true)),
        r.updated_at == now,
{
    MonitorConfig {
        id: 0,
        monitor_id,
        display_mode: match patch.display_mode {
            Some(v) => v,
            None => String::from_str("independent"),
        },
        wallpaper_id: patch.wallpaper_id,
        collection_id: patch.collection_id,
        fit_mode: match patch.fit_mode {
            Some(v) => v,
            None => String::from_str("cover"),
        },
        play_mode: match patch.play_mode {
            Some(v) => v,
            None => String::from_str("sequential"),
        },
        play_interval: match patch.play_interval {
            Some(v) => v,
            None => DEFAULT_PLAY_INTERVAL,
        },
        is_enabled: match patch.is_enabled {
            Some(v) => v,
            None => false,
        },
        active: match patch.active {
            Some(v) => v,
            None => false,
        },
        updated_at: now,
    }
}

/// Whether the carousel of a config may run: the monitor is present, the
/// master switch is on and a collection is bound.
pub open spec fn should_start_spec(c: MonitorConfig) -> bool {
    c.active && c.is_enabled && c.collection_id is Some
}

/// Whether the carousel of `config` may run.
pub fn should_start_timer(config: &MonitorConfig) -> (r: bool)
    ensures
        r == should_start_spec(*config),
{
    config.active && config.is_enabled && config.collection_id.is_some()
}

/// Prefix of the scheduler keys of carousel timers.
pub const CAROUSEL_TIMER_PREFIX: &'static str = "carousel:";

/// The scheduler key of a monitor's carousel timer.
pub open spec fn carousel_key_spec(monitor_id: Seq<char>) -> Seq<char> {
    "carousel:"@ + monitor_id
}

/// The scheduler key of the carousel timer of `monitor_id`.
pub fn carousel_key(monitor_id: &str) -> (r: String)
    ensures
        r@ == carousel_key_spec(monitor_id@),
{
    let mut key = String::from_str(CAROUSEL_TIMER_PREFIX);
    key.append(monitor_id);
    key
}

/// Two monitors share a carousel key only when they are the same monitor.
pub proof fn carousel_key_injective(a: Seq<char>, b: Seq<char>)
    requires
        carousel_key_spec(a) == carousel_key_spec(b),
    ensures
        a == b,
{
    let p = "carousel:"@;
    let ka = p + a;
    let kb = p + b;
    assert(a =~= ka.subrange(p.len() as int, ka.len() as int));
    assert(b =~= kb.subrange(p.len() as int, kb.len() as int));
}

/// A carousel timer, identified by its monitor.
pub struct CarouselTask {
    pub monitor_id: String,
}

impl CarouselTask {
    /// The key under which this carousel timer is registered.
    pub fn key(&self) -> (r: String)
        ensures
            r@ == carousel_key_spec(self.monitor_id@),
    {
        carousel_key(self.monitor_id.as_str())
    }
}

/// The full-screen poller task.
pub struct FullscreenDetectionTask;

/// The scheduler key of the full-screen poller.
pub const FULLSCREEN_TIMER_KEY: &'static str = "fullscreen_detector";

/// The shortest carousel interval, in seconds.
pub const MIN_PLAY_INTERVAL: i32 = 5;

/// Seconds between two carousel ticks: the configured interval, at least 5.
pub fn carousel_interval_secs(play_interval: i32) -> (r: u64)
    ensures
        r == (if play_interval >= MIN_PLAY_INTERVAL {
            play_interval as int
        } else {
            MIN_PLAY_INTERVAL as int
        }),
{
    if play_interval >= MIN_PLAY_INTERVAL {
        play_interval as u64
    } else {
        MIN_PLAY_INTERVAL as u64
    }
}

/// Whether a display mode keeps all monitors in step (`mirror` or `extend`).
pub open spec fn is_sync_mode_spec(mode: Seq<char>) -> bool {
    mode == "mirror"@ || mode == "extend"@
}

/// Whether `mode` is `mirror` or `extend`.
pub fn is_sync_mode(mode: &str) -> (r: bool)
    ensures
        r == is_sync_mode_spec(mode@),
{
    str_eq(mode, "mirror") || str_eq(mode, "extend")
}

/// Whether `mode` is `independent`.
pub fn is_independent_mode(mode: &str) -> (r: bool)
    ensures
        r == (mode@ == "independent"@),
{
    str_eq(mode, "independent")
}

/// The display mode setting as the carousel reads it: the stored value, or
/// `independent` when none is stored or it could not be read.
pub fn display_mode_or_default(stored: Option<String>) -> (r: String)
    ensures
        r@ == (match stored {
            Some(v) => v@,
            None => "independent"@,
        }),
{
    match stored {
        Some(v) => v,
        None => String::from_str("independent"),
    }
}

/// Event telling the main window that a monitor shows another wallpaper.
pub struct ThumbnailChangedPayload {
    pub monitor_id: String,
    pub wallpaper_id: i32,
}

/// Event telling one wallpaper window which wallpaper to show.
pub struct WallpaperChangedPayload {
    pub monitor_id: String,
    pub wallpaper_id: i32,
}

} // verus!
