//! Global shortcuts: the default key bindings, the binding in force for each
//! action, the action a key press resolves to, and the per-key throttle that
//! drops repeated presses.
use vstd::prelude::*;

use std::collections::HashMap;

use crate::action::Action;
use crate::text::{trim, trim_spec};

verus! {

broadcast use vstd::std_specs::hash::group_hash_axioms;

/// A default binding: the setting that stores the user's choice, the key
/// combination used when there is none, and the action.
pub struct DefaultShortcut {
    pub setting_key: &'static str,
    pub default_accelerator: &'static str,
    pub action: Action,
}

/// Setting key of the "next wallpaper" binding.
pub const SHORTCUT_NEXT_WALLPAPER: &'static str = "shortcut_next_wallpaper";
/// Setting key of the "previous wallpaper" binding.
pub const SHORTCUT_PREV_WALLPAPER: &'static str = "shortcut_prev_wallpaper";
/// Setting key of the "pause / resume" binding.
pub const SHORTCUT_TOGGLE_PAUSE: &'static str = "shortcut_toggle_pause";
/// Setting key of the "show main window" binding.
pub const SHORTCUT_OPEN_MAIN: &'static str = "shortcut_open_main";
/// Setting key of the "favourite" binding.
pub const SHORTCUT_TOGGLE_FAVORITE: &'static str = "shortcut_toggle_favorite";

/// The actions that have a default binding, in the order they are looked up;
/// quitting has none, so that it cannot be triggered by accident.
pub open spec fn bound_actions() -> Seq<Action> {
    seq![Action::Next, Action::Prev, Action::TogglePause, Action::OpenMain, Action::ToggleFavorite]
}

/// The default bindings.
pub fn default_shortcuts() -> (r: Vec<DefaultShortcut>)
    ensures
        r@.len() == 5,
        forall|i: int| 0 <= i < 5 ==> #[trigger] r@[i].action == bound_actions()[i],
        r@[0].default_accelerator == "CmdOrCtrl+Alt+Right",
        r@[1].default_accelerator == "CmdOrCtrl+Alt+Left",
        r@[2].default_accelerator == "CmdOrCtrl+Alt+Space",
        r@[3].default_accelerator == "CmdOrCtrl+Alt+W",
        r@[4].default_accelerator == "CmdOrCtrl+Alt+F",
        r@[0].setting_key == SHORTCUT_NEXT_WALLPAPER,
        r@[1].setting_key == SHORTCUT_PREV_WALLPAPER,
        r@[2].setting_key == SHORTCUT_TOGGLE_PAUSE,
        r@[3].setting_key == SHORTCUT_OPEN_MAIN,
        r@[4].setting_key == SHORTCUT_TOGGLE_FAVORITE,
{
    let mut v: Vec<DefaultShortcut> = Vec::new();
    v.push(
        DefaultShortcut {
            setting_key: SHORTCUT_NEXT_WALLPAPER,
            default_accelerator: "CmdOrCtrl+Alt+Right",
            action: Action::Next,
        },
    );
    v.push(
        DefaultShortcut {
            setting_key: SHORTCUT_PREV_WALLPAPER,
            default_accelerator: "CmdOrCtrl+Alt+Left",
            action: Action::Prev,
        },
    );
    v.push(
        DefaultShortcut {
            setting_key: SHORTCUT_TOGGLE_PAUSE,
            default_accelerator: "CmdOrCtrl+Alt+Space",
            action: Action::TogglePause,
        },
    );
    v.push(
        DefaultShortcut {
            setting_key: SHORTCUT_OPEN_MAIN,
            default_accelerator: "CmdOrCtrl+Alt+W",
            action: Action::OpenMain,
        },
    );
    v.push(
        DefaultShortcut {
            setting_key: SHORTCUT_TOGGLE_FAVORITE,
            default_accelerator: "CmdOrCtrl+Alt+F",
            action: Action::ToggleFavorite,
        },
    );
    v
}

/// The key combination in force: the stored one unless it is missing or
/// blank, else the default.
pub fn current_accelerator(stored: Option<String>, default_accelerator: &str) -> (r: String)
    ensures
        r@ == (match stored {
            Some(v) => if trim_spec(v@).len() > 0 {
                v@
            } else {
                default_accelerator@
            },
            None => default_accelerator@,
        }),
{
    match stored {
        Some(v) => {
            let t = trim(v.as_str());
            if t.as_str().unicode_len() > 0 {
                v
            } else {
                String::from_str(default_accelerator)
            }
        },
        None => String::from_str(default_accelerator),
    }
}

/// The action of a key press, given for each default binding (in order)
/// whether its key combination is the one pressed: the first that is.
pub fn resolve_action(matches: &Vec<bool>) -> (r: Option<Action>)
    requires
        matches.len() == 5,
    ensures
        r == (if matches@[0] {
            Some(Action::Next)
        } else if matches@[1] {
            Some(Action::Prev)
        } else if matches@[2] {
            Some(Action::TogglePause)
        } else if matches@[3] {
            Some(Action::OpenMain)
        } else if matches@[4] {
            Some(Action::ToggleFavorite)
        } else {
            None
        }),
{
    let defaults = default_shortcuts();
    let mut i: usize = 0;
    while i < 5
        invariant
            i <= 5,
            matches.len() == 5,
            defaults@.len() == 5,
            forall|k: int| 0 <= k < 5 ==> #[trigger] defaults@[k].action == bound_actions()[k],
            forall|k: int| 0 <= k < i ==> !#[trigger] matches@[k],
        decreases 5 - i,
    {
        if matches[i] {
            return Some(defaults[i].action);
        }
        i = i + 1;
    }
    None
}

/// Presses of one key closer together than this many nanoseconds are dropped.
pub const SHORTCUT_THROTTLE_NANOS: u64 = 500_000_000;

/// Nanoseconds from `last` to `now`; zero when `now` is earlier.
pub open spec fn elapsed(last: u64, now: u64) -> int {
    if now >= last {
        now - last
    } else {
        0
    }
}

/// Whether a press of key `id` at `now` fires, given when each key last
/// fired: the first press of a key does, a later one once 500 ms passed.
pub open spec fn fires(last_fire: Map<u32, u64>, id: u32, now: u64) -> bool {
    match last_fire.get(id) {
        Some(last) => elapsed(last, now) >= SHORTCUT_THROTTLE_NANOS,
        None => true,
    }
}

/// When each key last fired, in nanoseconds on a monotonic clock.
pub struct ShortcutThrottle {
    last_fire: HashMap<u32, u64>,
}

impl View for ShortcutThrottle {
    type V = Map<u32, u64>;

    closed spec fn view(&self) -> Map<u32, u64> {
        self.last_fire@
    }
}

impl ShortcutThrottle {
    /// No key has fired yet.
    pub fn new() -> (r: Self)
        ensures
            r@ == Map::<u32, u64>::empty(),
    {
        ShortcutThrottle { last_fire: HashMap::new() }
    }

    /// Whether a press of key `shortcut_id` at time `now` fires: the first
    /// press of a key fires, a later one only when at least 500 ms passed
    /// since the key last fired. A press that fires becomes the key's last.
    pub fn should_fire(&mut self, shortcut_id: u32, now: u64) -> (fire: bool)
        ensures
            fire == fires(old(self)@, shortcut_id, now),
            fire ==> final(self)@ == old(self)@.insert(shortcut_id, now),
            !fire ==> final(self)@ == old(self)@,
    {
        match self.last_fire.get(&shortcut_id) {
            Some(last) => {
                let passed = if now >= *last {
                    now - *last
                } else {
                    0
                };
                if passed < SHORTCUT_THROTTLE_NANOS {
                    return false;
                }
            },
            None => {},
        }
        self.last_fire.insert(shortcut_id, now);
        true
    }
}

/// A key that fired is throttled for the next 500 ms, and its press changes
/// nothing for the other keys.
pub proof fn fired_key_is_throttled(m: Map<u32, u64>, id: u32, now: u64, later: u64, other: u32, t: u64)
    requires
        now <= later,
        later - now < SHORTCUT_THROTTLE_NANOS,
        other != id,
    ensures
        !fires(m.insert(id, now), id, later),
        fires(m.insert(id, now), other, t) == fires(m, other, t),
{
}

} // verus!
