//! The decisions of the task scheduler. Each function takes what the
//! scheduler has read (configs, running state, the answer of a collection
//! size check) and says which timers to keep, stop or start, which monitors
//! to notify and which configs to copy; the caller performs those actions.
use vstd::prelude::*;

use crate::monitor_config::{
    carousel_interval_secs, is_sync_mode, is_sync_mode_spec, should_start_spec, should_start_timer,
    MonitorConfig, MIN_PLAY_INTERVAL,
};
use crate::text::str_eq;

verus! {

/// What to do with one timer.
#[derive(Debug, Clone, Copy, PartialEq, Eq, Structural)]
pub enum TimerStep {
    /// Leave it as it is.
    Keep,
    /// Stop it (a no-op when none is registered).
    Stop,
    /// Start it, replacing any task registered under the same key.
    Start,
}

/// The answer of the check "does the collection hold more than one wallpaper".
#[derive(Debug, Clone, Copy, PartialEq, Eq, Structural)]
pub enum CheckOutcome {
    Enough,
    NotEnough,
    Failed,
}

/// A timer decision, possibly waiting for a collection size check.
#[derive(Debug, Clone, Copy, PartialEq, Eq, Structural)]
pub enum TimerPlan {
    /// Decided without a check.
    Now(TimerStep),
    /// Check `collection_id` first, then take the step for the answer.
    AfterCheck { collection_id: i32, enough: TimerStep, not_enough: TimerStep, failed: TimerStep },
}

/// The step a plan gives for a check outcome.
pub open spec fn plan_step(p: TimerPlan, o: CheckOutcome) -> TimerStep {
    match p {
        TimerPlan::Now(s) => s,
        TimerPlan::AfterCheck { enough, not_enough, failed, .. } => match o {
            CheckOutcome::Enough => enough,
            CheckOutcome::NotEnough => not_enough,
            CheckOutcome::Failed => failed,
        },
    }
}

impl TimerPlan {
    /// The step to take once the check (if any) answered `outcome`.
    pub fn resolve(&self, outcome: CheckOutcome) -> (r: TimerStep)
        ensures
            r == plan_step(*self, outcome),
    {
        match self {
            TimerPlan::Now(s) => *s,
            TimerPlan::AfterCheck { enough, not_enough, failed, .. } => match outcome {
                CheckOutcome::Enough => *enough,
                CheckOutcome::NotEnough => *not_enough,
                CheckOutcome::Failed => *failed,
            },
        }
    }
}

/// The outcome of a size check from the number of wallpapers counted
/// (`None` when counting failed): a carousel needs more than one.
pub fn outcome_from_count(count: Option<u64>) -> (r: CheckOutcome)
    ensures
        r == (match count {
            Some(n) => if n > 1 {
                CheckOutcome::Enough
            } else {
                CheckOutcome::NotEnough
            },
            None => CheckOutcome::Failed,
        }),
{
    match count {
        Some(n) => if n > 1 {
            CheckOutcome::Enough
        } else {
            CheckOutcome::NotEnough
        },
        None => CheckOutcome::Failed,
    }
}

/// How the carousel timer of a config follows a change of that config.
pub open spec fn carousel_timer_spec(c: MonitorConfig, need_restart: bool, running: bool) -> TimerPlan {
    if !should_start_spec(c) {
        TimerPlan::Now(TimerStep::Stop)
    } else if need_restart {
        TimerPlan::AfterCheck {
            collection_id: c.collection_id->0,
            enough: TimerStep::Start,
            not_enough: TimerStep::Stop,
            failed: TimerStep::Stop,
        }
    } else if !running {
        TimerPlan::AfterCheck {
            collection_id: c.collection_id->0,
            enough: TimerStep::Start,
            not_enough: TimerStep::Keep,
            failed: TimerStep::Keep,
        }
    } else {
        TimerPlan::Now(TimerStep::Keep)
    }
}

/// The timer plan for a changed config: stopped when the carousel may not
/// run; restarted (if the collection has enough wallpapers, else stopped) when
/// the interval or collection changed; started when not running and the
/// collection has enough; otherwise kept.
pub fn plan_carousel_timer(config: &MonitorConfig, need_restart: bool, running: bool) -> (r:
    TimerPlan)
    ensures
        r == carousel_timer_spec(*config, need_restart, running),
{
    if !should_start_timer(config) {
        return TimerPlan::Now(TimerStep::Stop);
    }
    let cid = match config.collection_id {
        Some(cid) => cid,
        None => return TimerPlan::Now(TimerStep::Stop),
    };
    if need_restart {
        TimerPlan::AfterCheck {
            collection_id: cid,
            enough: TimerStep::Start,
            not_enough: TimerStep::Stop,
            failed: TimerStep::Stop,
        }
    } else if !running {
        TimerPlan::AfterCheck {
            collection_id: cid,
            enough: TimerStep::Start,
            not_enough: TimerStep::Keep,
            failed: TimerStep::Keep,
        }
    } else {
        TimerPlan::Now(TimerStep::Keep)
    }
}

/// A carousel is only ever started for a config whose carousel may run, and
/// only after its collection was found to hold enough wallpapers.
pub proof fn carousel_timer_starts_only_when_allowed(
    c: MonitorConfig,
    need_restart: bool,
    running: bool,
    o: CheckOutcome,
)
    requires
        plan_step(carousel_timer_spec(c, need_restart, running), o) == TimerStep::Start,
    ensures
        should_start_spec(c),
        o == CheckOutcome::Enough,
{
}

/// The state of the start-up pass that starts the carousel timers.
pub struct CarouselStartup {
    /// Whether the display mode keeps the monitors in step.
    pub is_sync: bool,
    /// Whether a timer was already started in a synchronised mode.
    pub primary_started: bool,
}

impl CarouselStartup {
    /// A fresh pass.
    pub fn new(is_sync: bool) -> (r: Self)
        ensures
            r.is_sync == is_sync,
            !r.primary_started,
    {
        CarouselStartup { is_sync, primary_started: false }
    }

    /// The collection to check for `config`, or `None` to skip it: configs
    /// whose carousel may not run are skipped, and in a synchronised mode
    /// everything after the first started timer is skipped.
    pub fn next_check(&self, config: &MonitorConfig) -> (r: Option<i32>)
        ensures
            r == (if should_start_spec(*config) && !(self.is_sync && self.primary_started) {
                config.collection_id
            } else {
                None::<i32>
            }),
    {
        if should_start_timer(config) && !(self.is_sync && self.primary_started) {
            config.collection_id
        } else {
            None
        }
    }

    /// Records the check of the config last returned by `next_check`; returns
    /// whether its timer is started.
    pub fn record(&mut self, outcome: CheckOutcome) -> (start: bool)
        ensures
            start == (outcome == CheckOutcome::Enough),
            final(self).is_sync == old(self).is_sync,
            final(self).primary_started == (old(self).primary_started || (start
                && old(self).is_sync)),
    {
        let start = outcome == CheckOutcome::Enough;
        if start && self.is_sync {
            self.primary_started = true;
        }
        start
    }
}

/// In a synchronised mode, once one timer was started no further config is
/// checked, so at most one carousel runs.
pub proof fn startup_starts_one_when_synced(s: CarouselStartup, c: MonitorConfig)
    requires
        s.is_sync,
        s.primary_started,
    ensures
        (if should_start_spec(c) && !(s.is_sync && s.primary_started) {
            c.collection_id
        } else {
            None::<i32>
        }) is None,
{
}

// ---------------------------------------------------------------------------
// display mode changes

/// Indices of the active configs, in order.
pub open spec fn active_indices(c: Seq<MonitorConfig>) -> Seq<usize>
    decreases c.len(),
{
    if c.len() == 0 {
        Seq::empty()
    } else {
        let p = active_indices(c.drop_last());
        if c.last().active {
            p.push((c.len() - 1) as usize)
        } else {
            p
        }
    }
}

/// Index of the first active config, if any.
pub open spec fn first_active(c: Seq<MonitorConfig>) -> Option<usize>
    decreases c.len(),
{
    if c.len() == 0 {
        None
    } else {
        match first_active(c.drop_last()) {
            Some(i) => Some(i),
            None => if c.last().active {
                Some((c.len() - 1) as usize)
            } else {
                None
            },
        }
    }
}

/// Index of the first active config of monitor `mid`, if any.
pub open spec fn first_active_of(c: Seq<MonitorConfig>, mid: Seq<char>) -> Option<usize>
    decreases c.len(),
{
    if c.len() == 0 {
        None
    } else {
        match first_active_of(c.drop_last(), mid) {
            Some(i) => Some(i),
            None => if c.last().active && c.last().monitor_id@ == mid {
                Some((c.len() - 1) as usize)
            } else {
                None
            },
        }
    }
}

/// The timers of `independent` mode: every active config whose carousel may
/// run is checked and started if it is not running yet.
pub open spec fn independent_timers(c: Seq<MonitorConfig>, running: Seq<bool>) -> Seq<
    (usize, TimerPlan),
>
    decreases c.len(),
{
    if c.len() == 0 {
        Seq::empty()
    } else {
        let i = c.len() - 1;
        let p = independent_timers(c.drop_last(), running);
        if c.last().active && should_start_spec(c.last()) {
            p.push(
                (
                    i as usize,
                    TimerPlan::AfterCheck {
                        collection_id: c.last().collection_id->0,
                        enough: if running[i] {
                            TimerStep::Keep
                        } else {
                            TimerStep::Start
                        },
                        not_enough: TimerStep::Keep,
                        failed: TimerStep::Keep,
                    },
                ),
            )
        } else {
            p
        }
    }
}

/// Active configs of other monitors than `mid`.
pub open spec fn others_of(c: Seq<MonitorConfig>, mid: Seq<char>) -> Seq<usize>
    decreases c.len(),
{
    if c.len() == 0 {
        Seq::empty()
    } else {
        let p = others_of(c.drop_last(), mid);
        if c.last().active && c.last().monitor_id@ != mid {
            p.push((c.len() - 1) as usize)
        } else {
            p
        }
    }
}

/// Running timers of active configs of other monitors than `mid`: stopped.
pub open spec fn secondary_stops(c: Seq<MonitorConfig>, running: Seq<bool>, mid: Seq<char>) -> Seq<
    (usize, TimerPlan),
>
    decreases c.len(),
{
    if c.len() == 0 {
        Seq::empty()
    } else {
        let i = c.len() - 1;
        let p = secondary_stops(c.drop_last(), running, mid);
        if c.last().active && c.last().monitor_id@ != mid && running[i] {
            p.push((i as usize, TimerPlan::Now(TimerStep::Stop)))
        } else {
            p
        }
    }
}

/// The timer of the primary monitor in a synchronised mode: restarted when
/// its carousel may run and its collection has enough wallpapers, else stopped.
pub open spec fn primary_timer(c: MonitorConfig) -> TimerPlan {
    if should_start_spec(c) {
        TimerPlan::AfterCheck {
            collection_id: c.collection_id->0,
            enough: TimerStep::Start,
            not_enough: TimerStep::Stop,
            failed: TimerStep::Stop,
        }
    } else {
        TimerPlan::Now(TimerStep::Stop)
    }
}

/// What a change of the display mode asks for.
pub struct DisplayModePlan {
    /// The config the others copy their carousel settings from.
    pub sync_source: Option<usize>,
    /// The configs that copy from `sync_source`.
    pub sync_targets: Vec<usize>,
    /// The configs whose wallpaper window is told the new mode.
    pub notify: Vec<usize>,
    /// Timer decisions, in the order to carry them out.
    pub timers: Vec<(usize, TimerPlan)>,
}

/// The monitor that leads a synchronised mode: the one named, else the first
/// active one.
pub open spec fn primary_monitor(c: Seq<MonitorConfig>, named: Option<Seq<char>>) -> Seq<char> {
    match named {
        Some(m) => m,
        None => match first_active(c) {
            Some(i) => c[i as int].monitor_id@,
            None => Seq::empty(),
        },
    }
}

/// The plan for a change of the display mode to `mode`.
pub open spec fn display_mode_spec(
    c: Seq<MonitorConfig>,
    running: Seq<bool>,
    mode: Seq<char>,
    named: Option<Seq<char>>,
) -> (Option<usize>, Seq<usize>, Seq<usize>, Seq<(usize, TimerPlan)>) {
    if active_indices(c).len() == 0 {
        (None, Seq::empty(), Seq::empty(), Seq::empty())
    } else if mode == "independent"@ {
        (None, Seq::empty(), active_indices(c), independent_timers(c, running))
    } else if is_sync_mode_spec(mode) {
        let mid = primary_monitor(c, named);
        match first_active_of(c, mid) {
            Some(p) => (
                Some(p),
                others_of(c, mid),
                active_indices(c),
                secondary_stops(c, running, mid).push((p, primary_timer(c[p as int]))),
            ),
            None => (None, Seq::empty(), active_indices(c), secondary_stops(c, running, mid)),
        }
    } else {
        (None, Seq::empty(), Seq::empty(), Seq::empty())
    }
}

proof fn lemma_independent_timers_shape(c: Seq<MonitorConfig>, running: Seq<bool>)
    requires
        c.len() <= usize::MAX,
    ensures
        forall|j: int|
            0 <= j < independent_timers(c, running).len() ==> {
                let e = #[trigger] independent_timers(c, running)[j];
                &&& (e.0 as int) < c.len()
                &&& should_start_spec(c[e.0 as int])
                &&& e.1 matches TimerPlan::AfterCheck { enough, not_enough, failed, .. }
                &&& not_enough == TimerStep::Keep
                &&& failed == TimerStep::Keep
                &&& enough == (if running[e.0 as int] {
                    TimerStep::Keep
                } else {
                    TimerStep::Start
                })
            },
    decreases c.len(),
{
    if c.len() > 0 {
        let p = c.drop_last();
        lemma_independent_timers_shape(p, running);
        assert forall|j: int| 0 <= j < p.len() implies #[trigger] p[j] == c[j] by {}
    }
}

/// In `independent` mode nothing is copied, every active monitor is told,
/// and no carousel is stopped: a timer is only started, for a monitor whose
/// carousel may run and is not running, once its collection was found to
/// hold enough wallpapers.
pub proof fn independent_mode_only_starts_idle_carousels(
    c: Seq<MonitorConfig>,
    running: Seq<bool>,
    named: Option<Seq<char>>,
    j: int,
    o: CheckOutcome,
)
    requires
        c.len() <= usize::MAX,
        0 <= j < display_mode_spec(c, running, "independent"@, named).3.len(),
    ensures
        display_mode_spec(c, running, "independent"@, named).0 is None,
        display_mode_spec(c, running, "independent"@, named).1.len() == 0,
        display_mode_spec(c, running, "independent"@, named).2 == active_indices(c),
        ({
            let e = display_mode_spec(c, running, "independent"@, named).3[j];
            &&& plan_step(e.1, o) != TimerStep::Stop
            &&& should_start_spec(c[e.0 as int])
            &&& (plan_step(e.1, o) == TimerStep::Start ==> o == CheckOutcome::Enough
                && !running[e.0 as int])
        }),
{
    lemma_independent_timers_shape(c, running);
    assert(display_mode_spec(c, running, "independent"@, named).3[j] == independent_timers(c, running)[j]);
}

proof fn lemma_no_active(c: Seq<MonitorConfig>, mid: Seq<char>)
    requires
        forall|j: int| 0 <= j < c.len() ==> !(#[trigger] c[j]).active,
    ensures
        first_active(c) is None,
        first_active_of(c, mid) is None,
        active_indices(c).len() == 0,
    decreases c.len(),
{
    if c.len() > 0 {
        let p = c.drop_last();
        assert forall|j: int| 0 <= j < p.len() implies !(#[trigger] p[j]).active by {
            assert(p[j] == c[j]);
        }
        lemma_no_active(p, mid);
        assert(!c[c.len() - 1].active);
    }
}

proof fn lemma_first_active_is_least(c: Seq<MonitorConfig>, i: int)
    requires
        0 <= i < c.len(),
        c.len() <= usize::MAX,
        c[i].active,
        forall|j: int| 0 <= j < i ==> !(#[trigger] c[j]).active,
    ensures
        first_active(c) == Some(i as usize),
        first_active_of(c, c[i].monitor_id@) == Some(i as usize),
        active_indices(c).len() > 0,
    decreases c.len(),
{
    let p = c.drop_last();
    assert forall|j: int| 0 <= j < p.len() implies #[trigger] p[j] == c[j] by {}
    if i < c.len() - 1 {
        lemma_first_active_is_least(p, i);
        assert(p[i] == c[i]);
    } else {
        assert forall|j: int| 0 <= j < p.len() implies !(#[trigger] p[j]).active by {
            assert(p[j] == c[j]);
        }
        lemma_no_active(p, c[i].monitor_id@);
    }
}

/// In `mirror` and `extend` mode with no monitor named, the first active
/// config leads: it is the source the others copy, every other active config
/// of another monitor copies it, and the plan's last timer decision is its
/// own. With a monitor named, the first active config of that monitor leads.
pub proof fn synced_mode_is_led_by_the_first_active(
    c: Seq<MonitorConfig>,
    running: Seq<bool>,
    mode: Seq<char>,
    i: int,
)
    requires
        c.len() <= usize::MAX,
        is_sync_mode_spec(mode),
        0 <= i < c.len(),
        c[i].active,
        forall|j: int| 0 <= j < i ==> !(#[trigger] c[j]).active,
    ensures
        display_mode_spec(c, running, mode, None).0 == Some(i as usize),
        display_mode_spec(c, running, mode, None).1 == others_of(c, c[i].monitor_id@),
        display_mode_spec(c, running, mode, None).3.last().0 == i as usize,
        display_mode_spec(c, running, mode, Some(c[i].monitor_id@)).0 == Some(i as usize),
{
    reveal_strlit("independent");
    reveal_strlit("mirror");
    reveal_strlit("extend");
    assert("independent"@.len() == 11);
    assert("mirror"@.len() == 6);
    assert("extend"@.len() == 6);
    assert(mode != "independent"@);
    lemma_first_active_is_least(c, i);
    assert(primary_monitor(c, None) == c[i].monitor_id@);
}

proof fn lemma_first_active_bounds(c: Seq<MonitorConfig>)
    requires
        c.len() <= usize::MAX,
    ensures
        first_active(c) matches Some(i) ==> i < c.len() && c[i as int].active,
        (first_active(c) is None) == (active_indices(c).len() == 0),
    decreases c.len(),
{
    if c.len() > 0 {
        lemma_first_active_bounds(c.drop_last());
        match first_active(c.drop_last()) {
            Some(i) => {
                assert(c[i as int] == c.drop_last()[i as int]);
            },
            None => {},
        }
    }
}

proof fn lemma_first_active_of_bounds(c: Seq<MonitorConfig>, mid: Seq<char>)
    requires
        c.len() <= usize::MAX,
    ensures
        first_active_of(c, mid) matches Some(i) ==> i < c.len() && c[i as int].active && c[i as int].monitor_id@
            == mid,
    decreases c.len(),
{
    if c.len() > 0 {
        lemma_first_active_of_bounds(c.drop_last(), mid);
        match first_active_of(c.drop_last(), mid) {
            Some(i) => {
                assert(c[i as int] == c.drop_last()[i as int]);
            },
            None => {},
        }
    }
}

/// The decisions for a change of the display mode. `running[i]` tells whether
/// the carousel of `configs[i]` runs; `named` is the monitor the change was
/// made from.
pub fn plan_display_mode(
    configs: &Vec<MonitorConfig>,
    running: &Vec<bool>,
    mode: &str,
    named: Option<&str>,
) -> (r: DisplayModePlan)
    requires
        running.len() == configs.len(),
    ensures
        (r.sync_source, r.sync_targets@, r.notify@, r.timers@) == display_mode_spec(
            configs@,
            running@,
            mode@,
            match named {
                Some(m) => Some(m@),
                None => None,
            },
        ),
{
    let ghost c = configs@;
    let ghost nm = match named {
        Some(m) => Some(m@),
        None => None::<Seq<char>>,
    };
    let n = configs.len();
    // pass 1: the active configs and the first of them
    let mut actives: Vec<usize> = Vec::new();
    let mut first: Option<usize> = None;
    let mut i: usize = 0;
    while i < n
        invariant
            n == c.len(),
            c == configs@,
            i <= n,
            actives@ == active_indices(c.subrange(0, i as int)),
            first == first_active(c.subrange(0, i as int)),
        decreases n - i,
    {
        let ghost pre = c.subrange(0, i as int);
        assert(c.subrange(0, i + 1).drop_last() =~= pre);
        if configs[i].active {
            actives.push(i);
            if first.is_none() {
                first = Some(i);
            }
        }
        i = i + 1;
    }
    assert(c.subrange(0, n as int) =~= c);
    let empty = DisplayModePlan {
        sync_source: None,
        sync_targets: Vec::new(),
        notify: Vec::new(),
        timers: Vec::new(),
    };
    if actives.len() == 0 {
        return empty;
    }
    if str_eq(mode, "independent") {
        let mut timers: Vec<(usize, TimerPlan)> = Vec::new();
        let mut j: usize = 0;
        while j < n
            invariant
                n == c.len(),
                c == configs@,
                running.len() == n,
                j <= n,
                timers@ == independent_timers(c.subrange(0, j as int), running@),
            decreases n - j,
        {
            let ghost pre = c.subrange(0, j as int);
            assert(c.subrange(0, j + 1).drop_last() =~= pre);
            let cfg = &configs[j];
            if cfg.active && should_start_timer(cfg) {
                let cid = match cfg.collection_id {
                    Some(x) => x,
                    None => 0,
                };
                let enough = if running[j] {
                    TimerStep::Keep
                } else {
                    TimerStep::Start
                };
                timers.push(
                    (
                        j,
                        TimerPlan::AfterCheck {
                            collection_id: cid,
                            enough,
                            not_enough: TimerStep::Keep,
                            failed: TimerStep::Keep,
                        },
                    ),
                );
            }
            j = j + 1;
        }
        return DisplayModePlan { sync_source: None, sync_targets: Vec::new(), notify: actives, timers };
    }
    if !is_sync_mode(mode) {
        return empty;
    }
    proof {
        lemma_first_active_bounds(c);
    }
    let mid: &str = match named {
        Some(m) => m,
        None => match first {
            Some(f) => configs[f].monitor_id.as_str(),
            None => "",
        },
    };
    assert(mid@ == primary_monitor(c, nm)) by {
        if named is None && first is None {
            reveal_strlit("");
        }
    }
    // pass 2: the primary, the configs that copy it and the timers to stop
    let mut primary: Option<usize> = None;
    let mut others: Vec<usize> = Vec::new();
    let mut timers: Vec<(usize, TimerPlan)> = Vec::new();
    let mut k: usize = 0;
    while k < n
        invariant
            n == c.len(),
            c == configs@,
            running.len() == n,
            k <= n,
            primary == first_active_of(c.subrange(0, k as int), mid@),
            others@ == others_of(c.subrange(0, k as int), mid@),
            timers@ == secondary_stops(c.subrange(0, k as int), running@, mid@),
        decreases n - k,
    {
        let ghost pre = c.subrange(0, k as int);
        assert(c.subrange(0, k + 1).drop_last() =~= pre);
        let cfg = &configs[k];
        let same = str_eq(cfg.monitor_id.as_str(), mid);
        if cfg.active && same && primary.is_none() {
            primary = Some(k);
        }
        if cfg.active && !same {
            others.push(k);
            if running[k] {
                timers.push((k, TimerPlan::Now(TimerStep::Stop)));
            }
        }
        k = k + 1;
    }
    match primary {
        Some(p) => {
            proof {
                lemma_first_active_of_bounds(c, mid@);
            }
            let src = &configs[p];
            let plan = if should_start_timer(src) {
                let cid = match src.collection_id {
                    Some(x) => x,
                    None => 0,
                };
                TimerPlan::AfterCheck {
                    collection_id: cid,
                    enough: TimerStep::Start,
                    not_enough: TimerStep::Stop,
                    failed: TimerStep::Stop,
                }
            } else {
                TimerPlan::Now(TimerStep::Stop)
            };
            timers.push((p, plan));
            DisplayModePlan { sync_source: Some(p), sync_targets: others, notify: actives, timers }
        },
        None => DisplayModePlan {
            sync_source: None,
            sync_targets: Vec::new(),
            notify: actives,
            timers,
        },
    }
}

proof fn lemma_secondary_stops_shape(c: Seq<MonitorConfig>, running: Seq<bool>, mid: Seq<char>)
    requires
        c.len() <= usize::MAX,
    ensures
        forall|j: int|
            0 <= j < secondary_stops(c, running, mid).len() ==> {
                let e = #[trigger] secondary_stops(c, running, mid)[j];
                &&& e.1 == TimerPlan::Now(TimerStep::Stop)
                &&& (e.0 as int) < c.len()
                &&& c[e.0 as int].monitor_id@ != mid
            },
    decreases c.len(),
{
    if c.len() > 0 {
        lemma_secondary_stops_shape(c.drop_last(), running, mid);
        let p = secondary_stops(c.drop_last(), running, mid);
        assert forall|j: int| 0 <= j < p.len() implies {
            let e = #[trigger] p[j];
            (e.0 as int) < c.len() && c[e.0 as int] == c.drop_last()[e.0 as int]
        } by {}
    }
}

/// In `mirror` and `extend` modes only the leading monitor's carousel can be
/// started: every other timer decision of the plan is a stop.
pub proof fn synced_mode_starts_only_the_primary(
    c: Seq<MonitorConfig>,
    running: Seq<bool>,
    mode: Seq<char>,
    named: Option<Seq<char>>,
    j: int,
    o: CheckOutcome,
)
    requires
        c.len() <= usize::MAX,
        is_sync_mode_spec(mode),
        0 <= j < display_mode_spec(c, running, mode, named).3.len(),
        plan_step(display_mode_spec(c, running, mode, named).3[j].1, o) == TimerStep::Start,
    ensures
        display_mode_spec(c, running, mode, named).0 == Some(
            display_mode_spec(c, running, mode, named).3[j].0,
        ),
        j == display_mode_spec(c, running, mode, named).3.len() - 1,
{
    reveal_strlit("independent");
    reveal_strlit("mirror");
    reveal_strlit("extend");
    assert("independent"@.len() == 11);
    assert("mirror"@.len() == 6);
    assert("extend"@.len() == 6);
    assert(mode != "independent"@);
    let mid = primary_monitor(c, named);
    lemma_secondary_stops_shape(c, running, mid);
}

// ---------------------------------------------------------------------------
// removal of wallpapers and collections

/// What to do for a monitor whose current wallpaper was removed.
#[derive(Debug, Clone, Copy, PartialEq, Eq, Structural)]
pub enum RemovalAction {
    /// Show `wallpaper_id` and then apply the timer plan.
    Switch { wallpaper_id: i32, timer: TimerPlan },
    /// Stop the carousel and clear the wallpaper window.
    ClearAndStop,
}

/// Whether `x` occurs in `s`.
pub fn contains_id(s: &Vec<i32>, x: i32) -> (r: bool)
    ensures
        r == s@.contains(x),
{
    let mut i: usize = 0;
    while i < s.len()
        invariant
            i <= s.len(),
            forall|j: int| 0 <= j < i ==> s@[j] != x,
        decreases s.len() - i,
    {
        if s[i] == x {
            return true;
        }
        i = i + 1;
    }
    false
}

/// The reaction to the removal of a monitor's current wallpaper from
/// collection `collection_id`, given the next wallpaper of the collection.
pub open spec fn removal_action_spec(collection_id: i32, next: Option<i32>, removed: Seq<i32>) -> RemovalAction {
    match next {
        Some(n) => if !removed.contains(n) {
            RemovalAction::Switch {
                wallpaper_id: n,
                timer: TimerPlan::AfterCheck {
                    collection_id,
                    enough: TimerStep::Start,
                    not_enough: TimerStep::Stop,
                    failed: TimerStep::Stop,
                },
            }
        } else {
            RemovalAction::ClearAndStop
        },
        None => RemovalAction::ClearAndStop,
    }
}

/// The reaction to the removal of a monitor's current wallpaper from
/// collection `collection_id`, given the next wallpaper of the collection
/// (`None` when there is none or it could not be read): switch to it when it
/// was not removed too, and restart the carousel if the collection still has
/// enough wallpapers (else stop it); otherwise clear the window.
pub fn current_wallpaper_removed(collection_id: i32, next: Option<i32>, removed: &Vec<i32>) -> (r:
    RemovalAction)
    ensures
        r == removal_action_spec(collection_id, next, removed@),
{
    match next {
        Some(n) => if !contains_id(removed, n) {
            RemovalAction::Switch {
                wallpaper_id: n,
                timer: TimerPlan::AfterCheck {
                    collection_id,
                    enough: TimerStep::Start,
                    not_enough: TimerStep::Stop,
                    failed: TimerStep::Stop,
                },
            }
        } else {
            RemovalAction::ClearAndStop
        },
        None => RemovalAction::ClearAndStop,
    }
}

/// A monitor never switches to a wallpaper that is being removed.
pub proof fn removal_never_shows_removed(collection_id: i32, next: Option<i32>, removed: Seq<i32>)
    ensures
        removal_action_spec(collection_id, next, removed) matches RemovalAction::Switch {
            wallpaper_id,
            ..
        } ==> !removed.contains(wallpaper_id),
{
}

/// The plan that only keeps a running carousel when its collection still has
/// enough wallpapers.
pub open spec fn recheck_plan(collection_id: i32) -> TimerPlan {
    TimerPlan::AfterCheck {
        collection_id,
        enough: TimerStep::Keep,
        not_enough: TimerStep::Stop,
        failed: TimerStep::Stop,
    }
}

/// What a monitor bound to a collection needs after wallpapers were removed
/// from that collection.
#[derive(Debug, Clone, Copy, PartialEq, Eq, Structural)]
pub enum CollectionRemovalStep {
    /// Its current wallpaper was removed: find the next one
    /// (see [`current_wallpaper_removed`]).
    ReplaceCurrent,
    /// Its running carousel may have too few wallpapers left.
    Recheck(TimerPlan),
    /// Nothing to do.
    Nothing,
}

/// The step for one bound config after `removing` left collection `collection_id`.
pub fn collection_removal_step(
    config: &MonitorConfig,
    collection_id: i32,
    removing: &Vec<i32>,
    running: bool,
) -> (r: CollectionRemovalStep)
    ensures
        r == (if config.wallpaper_id matches Some(w) && removing@.contains(w) {
            CollectionRemovalStep::ReplaceCurrent
        } else if running {
            CollectionRemovalStep::Recheck(recheck_plan(collection_id))
        } else {
            CollectionRemovalStep::Nothing
        }),
{
    let removed = match config.wallpaper_id {
        Some(w) => contains_id(removing, w),
        None => false,
    };
    if removed {
        CollectionRemovalStep::ReplaceCurrent
    } else if running {
        CollectionRemovalStep::Recheck(
            TimerPlan::AfterCheck {
                collection_id,
                enough: TimerStep::Keep,
                not_enough: TimerStep::Stop,
                failed: TimerStep::Stop,
            },
        )
    } else {
        CollectionRemovalStep::Nothing
    }
}

/// What a monitor whose wallpapers were deleted needs: the next wallpaper of
/// its collection (`Some(collection)`) or, showing a single wallpaper, a
/// cleared window and a stopped carousel (`None`).
pub fn deleted_wallpaper_source(config: &MonitorConfig) -> (r: Option<i32>)
    ensures
        r == config.collection_id,
{
    config.collection_id
}

/// Whether monitor `mid` is among `configs`.
pub fn has_monitor(configs: &Vec<MonitorConfig>, mid: &str) -> (r: bool)
    ensures
        r == (exists|j: int| 0 <= j < configs@.len() && #[trigger] configs@[j].monitor_id@ == mid@),
{
    let mut i: usize = 0;
    while i < configs.len()
        invariant
            i <= configs.len(),
            forall|j: int| 0 <= j < i ==> #[trigger] configs@[j].monitor_id@ != mid@,
        decreases configs.len() - i,
    {
        if str_eq(configs[i].monitor_id.as_str(), mid) {
            return true;
        }
        i = i + 1;
    }
    false
}

/// Running carousels of monitors not in `affected` whose collections may have
/// lost wallpapers.
pub open spec fn orphan_spec(all: Seq<MonitorConfig>, affected: Seq<MonitorConfig>, running: Seq<bool>) -> Seq<
    (usize, TimerPlan),
>
    decreases all.len(),
{
    if all.len() == 0 {
        Seq::empty()
    } else {
        let i = all.len() - 1;
        let p = orphan_spec(all.drop_last(), affected, running);
        let c = all.last();
        if !(exists|j: int| 0 <= j < affected.len() && #[trigger] affected[j].monitor_id@ == c.monitor_id@)
            && c.collection_id is Some && running[i] {
            p.push((i as usize, recheck_plan(c.collection_id->0)))
        } else {
            p
        }
    }
}

/// After wallpapers were deleted: for every monitor not directly affected that
/// plays a collection with a running carousel, a recheck of the collection.
pub fn orphan_timer_plans(
    all: &Vec<MonitorConfig>,
    affected: &Vec<MonitorConfig>,
    running: &Vec<bool>,
) -> (r: Vec<(usize, TimerPlan)>)
    requires
        running.len() == all.len(),
    ensures
        r@ == orphan_spec(all@, affected@, running@),
{
    let ghost a = all@;
    let n = all.len();
    let mut out: Vec<(usize, TimerPlan)> = Vec::new();
    let mut i: usize = 0;
    while i < n
        invariant
            n == a.len(),
            a == all@,
            running.len() == n,
            i <= n,
            out@ == orphan_spec(a.subrange(0, i as int), affected@, running@),
        decreases n - i,
    {
        assert(a.subrange(0, i + 1).drop_last() =~= a.subrange(0, i as int));
        let c = &all[i];
        if !has_monitor(affected, c.monitor_id.as_str()) && running[i] {
            match c.collection_id {
                Some(cid) => {
                    out.push(
                        (
                            i,
                            TimerPlan::AfterCheck {
                                collection_id: cid,
                                enough: TimerStep::Keep,
                                not_enough: TimerStep::Stop,
                                failed: TimerStep::Stop,
                            },
                        ),
                    );
                },
                None => {},
            }
        }
        i = i + 1;
    }
    assert(a.subrange(0, n as int) =~= a);
    out
}

/// After a collection was deleted every bound carousel stops; the window of a
/// monitor is cleared when it has no single wallpaper to fall back to.
pub fn clear_after_collection_deleted(config: &MonitorConfig) -> (r: bool)
    ensures
        r == (config.wallpaper_id is None),
{
    config.wallpaper_id.is_none()
}

// ---------------------------------------------------------------------------
// the carousel tick

/// The other active monitors a carousel tick of `mid` copies its new wallpaper
/// to: none in `independent` mode.
pub open spec fn tick_targets_spec(c: Seq<MonitorConfig>, mid: Seq<char>, is_sync: bool) -> Seq<usize> {
    if is_sync {
        others_of(c, mid)
    } else {
        Seq::empty()
    }
}

/// The monitors whose stored wallpaper a carousel tick of `mid` also updates.
pub fn carousel_tick_targets(configs: &Vec<MonitorConfig>, mid: &str, is_sync: bool) -> (r: Vec<
    usize,
>)
    ensures
        r@ == tick_targets_spec(configs@, mid@, is_sync),
{
    let mut out: Vec<usize> = Vec::new();
    if !is_sync {
        return out;
    }
    let ghost c = configs@;
    let n = configs.len();
    let mut i: usize = 0;
    while i < n
        invariant
            n == c.len(),
            c == configs@,
            i <= n,
            out@ == others_of(c.subrange(0, i as int), mid@),
        decreases n - i,
    {
        assert(c.subrange(0, i + 1).drop_last() =~= c.subrange(0, i as int));
        if configs[i].active && !str_eq(configs[i].monitor_id.as_str(), mid) {
            out.push(i);
        }
        i = i + 1;
    }
    assert(c.subrange(0, n as int) =~= c);
    out
}


/// What the carousel task of a monitor runs with: the collection it plays and
/// the seconds between two switches (at least 5), or `None` when the task
/// ends at once (the configuration is missing or unreadable, or no collection
/// is bound).
pub open spec fn carousel_start_spec(config: Option<MonitorConfig>) -> Option<(i32, u64)> {
    match config {
        Some(c) => match c.collection_id {
            Some(cid) => Some(
                (
                    cid,
                    (if c.play_interval >= MIN_PLAY_INTERVAL {
                        c.play_interval as int
                    } else {
                        MIN_PLAY_INTERVAL as int
                    }) as u64,
                ),
            ),
            None => None,
        },
        None => None,
    }
}

/// How the carousel task of a monitor starts, given its configuration
/// (`None` when it is missing or could not be read).
pub fn carousel_start(config: Option<&MonitorConfig>) -> (r: Option<(i32, u64)>)
    ensures
        r == carousel_start_spec(
            match config {
                Some(c) => Some(*c),
                None => None,
            },
        ),
{
    match config {
        Some(c) => match c.collection_id {
            Some(cid) => Some((cid, carousel_interval_secs(c.play_interval))),
            None => None,
        },
        None => None,
    }
}

/// What a tick found when it read the monitor's configuration again.
#[derive(Debug, Clone, Copy, PartialEq, Eq, Structural)]
pub enum TickRead {
    /// The configuration is there.
    Found,
    /// The configuration is gone.
    Missing,
    /// Reading it failed.
    Failed,
}

/// What a carousel tick does.
#[derive(Debug)]
pub enum TickStep {
    /// End the task: the monitor's configuration is gone.
    Stop,
    /// Do nothing this tick.
    Skip,
    /// The monitor now shows `wallpaper_id` (its own record is updated);
    /// copy it to the records of `sync_targets` (indices of the configs
    /// read), then tell the windows, in a synchronised mode if `is_sync`.
    Switch { wallpaper_id: i32, sync_targets: Vec<usize>, is_sync: bool },
}

/// The value of a [`TickStep`].
pub enum TickModel {
    Stop,
    Skip,
    Switch { wallpaper_id: i32, sync_targets: Seq<usize>, is_sync: bool },
}

impl View for TickStep {
    type V = TickModel;

    open spec fn view(&self) -> TickModel {
        match self {
            TickStep::Stop => TickModel::Stop,
            TickStep::Skip => TickModel::Skip,
            TickStep::Switch { wallpaper_id, sync_targets, is_sync } => TickModel::Switch {
                wallpaper_id: *wallpaper_id,
                sync_targets: sync_targets@,
                is_sync: *is_sync,
            },
        }
    }
}

/// The display mode a tick goes by: the stored one, `independent` when none
/// could be read.
pub open spec fn tick_mode(display_mode: Option<Seq<char>>) -> Seq<char> {
    match display_mode {
        Some(m) => m,
        None => "independent"@,
    }
}

/// One carousel tick of monitor `mid`: the configuration read `read`, the
/// next wallpaper `next` (`Err` when it could not be found out), whether the
/// monitor's own record took the new wallpaper, the configurations of all
/// monitors (empty when they could not be read) and the stored display mode.
/// A vanished configuration ends the task; a failed read, no next wallpaper
/// or a failed own update skips the tick; otherwise the new wallpaper is
/// shown, copied to the other active monitors in `mirror` and `extend` mode.
pub open spec fn carousel_tick_spec(
    read: TickRead,
    next: Result<Option<i32>, ()>,
    own_update_ok: bool,
    configs: Seq<MonitorConfig>,
    mid: Seq<char>,
    display_mode: Option<Seq<char>>,
) -> TickModel {
    match read {
        TickRead::Missing => TickModel::Stop,
        TickRead::Failed => TickModel::Skip,
        TickRead::Found => match next {
            Ok(Some(w)) => if !own_update_ok {
                TickModel::Skip
            } else {
                let is_sync = is_sync_mode_spec(tick_mode(display_mode));
                TickModel::Switch {
                    wallpaper_id: w,
                    sync_targets: tick_targets_spec(configs, mid, is_sync),
                    is_sync,
                }
            },
            _ => TickModel::Skip,
        },
    }
}

/// The decision of one carousel tick (see [`carousel_tick_spec`]).
pub fn carousel_tick(
    read: TickRead,
    next: Result<Option<i32>, ()>,
    own_update_ok: bool,
    configs: &Vec<MonitorConfig>,
    mid: &str,
    display_mode: Option<&str>,
) -> (r: TickStep)
    ensures
        r@ == carousel_tick_spec(
            read,
            next,
            own_update_ok,
            configs@,
            mid@,
            match display_mode {
                Some(m) => Some(m@),
                None => None,
            },
        ),
{
    let ghost dm = match display_mode {
        Some(m) => Some(m@),
        None => None::<Seq<char>>,
    };
    match read {
        TickRead::Missing => TickStep::Stop,
        TickRead::Failed => TickStep::Skip,
        TickRead::Found => match next {
            Ok(Some(w)) => if !own_update_ok {
                TickStep::Skip
            } else {
                let is_sync = match display_mode {
                    Some(m) => is_sync_mode(m),
                    None => {
                        proof {
                            reveal_strlit("independent");
                            reveal_strlit("mirror");
                            reveal_strlit("extend");
                            assert("independent"@.len() != "mirror"@.len());
                            assert("independent"@.len() != "extend"@.len());
                            assert(!is_sync_mode_spec(tick_mode(dm)));
                        }
                        false
                    },
                };
                let targets = carousel_tick_targets(configs, mid, is_sync);
                TickStep::Switch { wallpaper_id: w, sync_targets: targets, is_sync }
            },
            _ => TickStep::Skip,
        },
    }
}

} // verus!
