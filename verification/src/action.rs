//! User actions (from the main window, global shortcuts and the tray menu),
//! their feedback messages and the monitors they act on.
use vstd::prelude::*;

use crate::monitor_config::MonitorConfig;
use crate::scheduler::{active_indices, first_active};
use crate::text::str_eq;

verus! {

/// What the user asks for.
#[derive(Debug, Clone, Copy, PartialEq, Eq, Structural)]
pub enum Action {
    /// Switch to the next wallpaper.
    Next,
    /// Switch to the previous wallpaper.
    Prev,
    /// Pause or resume the carousel.
    TogglePause,
    /// Show and focus the main window.
    OpenMain,
    /// Quit the application.
    Quit,
    /// Add the wallpaper on screen to the built-in favourites, or remove it.
    ToggleFavorite,
}

/// Tray menu item ids.
pub const ID_NEXT: &'static str = "tray_next";
pub const ID_PREV: &'static str = "tray_prev";
pub const ID_TOGGLE_PAUSE: &'static str = "tray_toggle_pause";
pub const ID_TOGGLE_FAVORITE: &'static str = "tray_toggle_favorite";
pub const ID_OPEN_MAIN: &'static str = "tray_open_main";
pub const ID_QUIT: &'static str = "tray_quit";

/// The action of a tray menu item.
pub open spec fn menu_action_spec(id: Seq<char>) -> Option<Action> {
    if id == "tray_next"@ {
        Some(Action::Next)
    } else if id == "tray_prev"@ {
        Some(Action::Prev)
    } else if id == "tray_toggle_pause"@ {
        Some(Action::TogglePause)
    } else if id == "tray_toggle_favorite"@ {
        Some(Action::ToggleFavorite)
    } else if id == "tray_open_main"@ {
        Some(Action::OpenMain)
    } else if id == "tray_quit"@ {
        Some(Action::Quit)
    } else {
        None
    }
}

/// The action a tray menu item triggers; `None` for an unknown item.
pub fn action_for_menu_id(id: &str) -> (r: Option<Action>)
    ensures
        r == menu_action_spec(id@),
{
    if str_eq(id, ID_NEXT) {
        Some(Action::Next)
    } else if str_eq(id, ID_PREV) {
        Some(Action::Prev)
    } else if str_eq(id, ID_TOGGLE_PAUSE) {
        Some(Action::TogglePause)
    } else if str_eq(id, ID_TOGGLE_FAVORITE) {
        Some(Action::ToggleFavorite)
    } else if str_eq(id, ID_OPEN_MAIN) {
        Some(Action::OpenMain)
    } else if str_eq(id, ID_QUIT) {
        Some(Action::Quit)
    } else {
        None
    }
}

/// The feedback shown after an action: only switching reports at once.
pub fn toast_message(action: Action) -> (r: Option<&'static str>)
    ensures
        (r is Some) == (action == Action::Next || action == Action::Prev),
        action == Action::Next ==> r == Some("已切换下一张壁纸"),
        action == Action::Prev ==> r == Some("已切换上一张壁纸"),
{
    match action {
        Action::Next => Some("已切换下一张壁纸"),
        Action::Prev => Some("已切换上一张壁纸"),
        _ => None,
    }
}

/// The feedback after pausing or resuming: paused if any target was paused.
pub fn pause_message(paused_any: bool) -> (r: &'static str)
    ensures
        r == (if paused_any {
            "已暂停轮播"
        } else {
            "已恢复轮播"
        }),
{
    if paused_any {
        "已暂停轮播"
    } else {
        "已恢复轮播"
    }
}

/// The name of an action in events sent to the main window.
pub fn action_name(action: Action) -> (r: &'static str)
    ensures
        r == (match action {
            Action::Next => "next",
            Action::Prev => "prev",
            Action::TogglePause => "togglePause",
            Action::OpenMain => "openMain",
            Action::Quit => "quit",
            Action::ToggleFavorite => "toggleFavorite",
        }),
{
    match action {
        Action::Next => "next",
        Action::Prev => "prev",
        Action::TogglePause => "togglePause",
        Action::OpenMain => "openMain",
        Action::Quit => "quit",
        Action::ToggleFavorite => "toggleFavorite",
    }
}

/// The event that carries the feedback of an action.
pub struct ActionToastPayload {
    pub action: String,
    pub message: String,
}

/// The index of the first active config of monitor `name`.
pub open spec fn active_named(c: Seq<MonitorConfig>, name: Seq<char>) -> Option<usize>
    decreases c.len(),
{
    if c.len() == 0 {
        None
    } else {
        match active_named(c.drop_last(), name) {
            Some(i) => Some(i),
            None => if c.last().active && c.last().monitor_id@ == name {
                Some((c.len() - 1) as usize)
            } else {
                None
            },
        }
    }
}

/// The configs an action applies to: in a synchronised mode the first active
/// config (the others follow it); in `independent` mode the active config of
/// the monitor the user works on, or none when it is unknown or not active.
pub open spec fn action_targets_spec(c: Seq<MonitorConfig>, is_sync: bool, active: Option<Seq<char>>) -> Seq<
    usize,
> {
    if active_indices(c).len() == 0 {
        Seq::empty()
    } else if is_sync {
        match first_active(c) {
            Some(i) => seq![i],
            None => Seq::empty(),
        }
    } else {
        match active {
            None => Seq::empty(),
            Some(name) => match active_named(c, name) {
                Some(i) => seq![i],
                None => Seq::empty(),
            },
        }
    }
}

/// The indices of the configs an action applies to.
pub fn resolve_action_targets(configs: &Vec<MonitorConfig>, is_sync: bool, active_monitor: Option<&str>) -> (r:
    Vec<usize>)
    ensures
        r@ == action_targets_spec(
            configs@,
            is_sync,
            match active_monitor {
                Some(m) => Some(m@),
                None => None,
            },
        ),
{
    let ghost c = configs@;
    let n = configs.len();
    let mut any_active = false;
    let mut first: Option<usize> = None;
    let mut hit: Option<usize> = None;
    let mut i: usize = 0;
    while i < n
        invariant
            n == c.len(),
            c == configs@,
            i <= n,
            any_active == (active_indices(c.subrange(0, i as int)).len() > 0),
            first == first_active(c.subrange(0, i as int)),
            match active_monitor {
                Some(m) => hit == active_named(c.subrange(0, i as int), m@),
                None => hit is None,
            },
        decreases n - i,
    {
        assert(c.subrange(0, i + 1).drop_last() =~= c.subrange(0, i as int));
        let cfg = &configs[i];
        if cfg.active {
            any_active = true;
            if first.is_none() {
                first = Some(i);
            }
            match active_monitor {
                Some(m) => {
                    if hit.is_none() && str_eq(cfg.monitor_id.as_str(), m) {
                        hit = Some(i);
                    }
                },
                None => {},
            }
        }
        i = i + 1;
    }
    assert(c.subrange(0, n as int) =~= c);
    let mut out: Vec<usize> = Vec::new();
    if !any_active {
        return out;
    }
    if is_sync {
        match first {
            Some(f) => out.push(f),
            None => {},
        }
    } else {
        match hit {
            Some(h) => out.push(h),
            None => {},
        }
    }
    assert(out@ =~= action_targets_spec(
        c,
        is_sync,
        match active_monitor {
            Some(m) => Some(m@),
            None => None,
        },
    ));
    out
}

/// Whether one of the strings of `v` is `s`.
pub open spec fn holds(v: Seq<String>, s: Seq<char>) -> bool {
    exists|j: int| 0 <= j < v.len() && #[trigger] v[j]@ == s
}

/// Monitors whose carousel the user paused.
pub struct PausedMonitors {
    ids: Vec<String>,
}

impl View for PausedMonitors {
    type V = Set<Seq<char>>;

    closed spec fn view(&self) -> Set<Seq<char>> {
        Set::new(|s: Seq<char>| holds(self.ids@, s))
    }
}

impl PausedMonitors {
    /// Nothing paused.
    pub fn new() -> (r: Self)
        ensures
            r@ == Set::<Seq<char>>::empty(),
    {
        let r = PausedMonitors { ids: Vec::new() };
        assert(r@ =~= Set::<Seq<char>>::empty());
        r
    }

    /// Whether the carousel of `monitor_id` is paused.
    pub fn contains(&self, monitor_id: &str) -> (r: bool)
        ensures
            r == self@.contains(monitor_id@),
    {
        let mut i: usize = 0;
        while i < self.ids.len()
            invariant
                i <= self.ids@.len(),
                forall|j: int| 0 <= j < i ==> #[trigger] self.ids@[j]@ != monitor_id@,
            decreases self.ids.len() - i,
        {
            if str_eq(self.ids[i].as_str(), monitor_id) {
                assert(holds(self.ids@, monitor_id@));
                return true;
            }
            i = i + 1;
        }
        false
    }

    /// Pauses `monitor_id` if it runs, resumes it if paused; returns whether
    /// it is paused afterwards.
    pub fn toggle(&mut self, monitor_id: &str) -> (paused: bool)
        ensures
            paused == !old(self)@.contains(monitor_id@),
            paused ==> final(self)@ == old(self)@.insert(monitor_id@),
            !paused ==> final(self)@ == old(self)@.remove(monitor_id@),
    {
        let ghost before = self@;
        let ghost ob = self.ids@;
        let mut kept: Vec<String> = Vec::new();
        let mut found = false;
        let mut i: usize = 0;
        while i < self.ids.len()
            invariant
                i <= ob.len(),
                self.ids@ == ob,
                ob == old(self).ids@,
                before == old(self)@,
                found == holds(ob.subrange(0, i as int), monitor_id@),
                !holds(kept@, monitor_id@),
                forall|s: Seq<char>|
                    s != monitor_id@ ==> #[trigger] holds(kept@, s) == holds(ob.subrange(0, i as int), s),
            decreases ob.len() - i,
        {
            let ghost kb = kept@;
            let ghost pre = ob.subrange(0, i as int);
            let ghost post = ob.subrange(0, i + 1);
            assert(post =~= pre.push(ob[i as int]));
            let same = str_eq(self.ids[i].as_str(), monitor_id);
            if same {
                found = true;
            } else {
                kept.push(self.ids[i].clone());
            }
            proof {
                assert forall|s: Seq<char>| #[trigger] holds(post, s) == (holds(pre, s) || ob[i as int]@ == s) by {
                    if holds(post, s) {
                        let j = choose|j: int| 0 <= j < post.len() && #[trigger] post[j]@ == s;
                        if j < pre.len() {
                            assert(pre[j] == post[j]);
                        }
                    }
                    if holds(pre, s) {
                        let j = choose|j: int| 0 <= j < pre.len() && #[trigger] pre[j]@ == s;
                        assert(post[j] == pre[j]);
                    }
                    if ob[i as int]@ == s {
                        assert(post[i as int] == ob[i as int]);
                    }
                }
                assert forall|s: Seq<char>| #[trigger] holds(kept@, s) == (holds(kb, s) || (!same && ob[i as int]@ == s)) by {
                    if holds(kept@, s) {
                        let j = choose|j: int| 0 <= j < kept@.len() && #[trigger] kept@[j]@ == s;
                        if j < kb.len() {
                            assert(kb[j] == kept@[j]);
                        }
                    }
                    if holds(kb, s) {
                        let j = choose|j: int| 0 <= j < kb.len() && #[trigger] kb[j]@ == s;
                        assert(kept@[j] == kb[j]);
                    }
                    if !same && ob[i as int]@ == s {
                        assert(kept@[kb.len() as int]@ == s);
                    }
                }
            }
            i = i + 1;
        }
        assert(ob.subrange(0, ob.len() as int) =~= ob);
        if found {
            self.ids = kept;
            assert(self@ =~= before.remove(monitor_id@));
            false
        } else {
            self.ids.push(String::from_str(monitor_id));
            assert forall|s: Seq<char>| #[trigger] holds(self.ids@, s) == (holds(ob, s) || s == monitor_id@) by {
                if holds(self.ids@, s) {
                    let j = choose|j: int| 0 <= j < self.ids@.len() && #[trigger] self.ids@[j]@ == s;
                    if j < ob.len() {
                        assert(self.ids@[j] == ob[j]);
                    }
                }
                if holds(ob, s) {
                    let j = choose|j: int| 0 <= j < ob.len() && #[trigger] ob[j]@ == s;
                    assert(self.ids@[j] == ob[j]);
                }
                if s == monitor_id@ {
                    assert(self.ids@[ob.len() as int]@ == s);
                }
            }
            assert(self@ =~= before.insert(monitor_id@));
            true
        }
    }
}

/// Toggling a monitor twice restores what was paused.
pub proof fn toggle_twice_restores(s: Set<Seq<char>>, m: Seq<char>)
    ensures
        !s.contains(m) ==> s.insert(m).remove(m) == s,
        s.contains(m) ==> s.remove(m).insert(m) == s,
{
    assert(!s.contains(m) ==> s.insert(m).remove(m) =~= s);
    assert(s.contains(m) ==> s.remove(m).insert(m) =~= s);
}

} // verus!
