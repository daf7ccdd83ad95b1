use mini_wallpaper::monitor_config::{
    apply_patch, carousel_interval_secs, carousel_key, display_mode_or_default, is_independent_mode,
    is_sync_mode, new_config, should_start_timer, CarouselTask, ConfigPatch, MonitorConfig,
    CAROUSEL_TIMER_PREFIX, DEFAULT_PLAY_INTERVAL, FULLSCREEN_TIMER_KEY, MIN_PLAY_INTERVAL,
};
use mini_wallpaper::scheduler::{
    carousel_start, carousel_tick, TickRead, TickStep, carousel_tick_targets, clear_after_collection_deleted, collection_removal_step, contains_id,
    current_wallpaper_removed, deleted_wallpaper_source, has_monitor, orphan_timer_plans,
    outcome_from_count, plan_carousel_timer, plan_display_mode, CarouselStartup, CheckOutcome,
    CollectionRemovalStep, RemovalAction, TimerPlan, TimerStep,
};

fn config(mid: &str, active: bool, enabled: bool, collection: Option<i32>, wallpaper: Option<i32>) -> MonitorConfig {
    MonitorConfig {
        id: 1,
        monitor_id: mid.to_string(),
        display_mode: "independent".to_string(),
        wallpaper_id: wallpaper,
        collection_id: collection,
        fit_mode: "cover".to_string(),
        play_mode: "sequential".to_string(),
        play_interval: 300,
        is_enabled: enabled,
        active,
        updated_at: "2024-01-01 00:00:00".to_string(),
    }
}

fn empty_patch() -> ConfigPatch {
    ConfigPatch {
        wallpaper_id: None,
        collection_id: None,
        clear_collection: None,
        display_mode: None,
        fit_mode: None,
        play_mode: None,
        play_interval: None,
        is_enabled: None,
        active: None,
    }
}

fn restart_check(cid: i32) -> TimerPlan {
    TimerPlan::AfterCheck {
        collection_id: cid,
        enough: TimerStep::Start,
        not_enough: TimerStep::Stop,
        failed: TimerStep::Stop,
    }
}

#[test]
fn carousel_key_has_prefix() {
    assert_eq!(carousel_key(r"\\.\DISPLAY1"), r"carousel:\\.\DISPLAY1");
    assert_eq!(CAROUSEL_TIMER_PREFIX, "carousel:");
    let task = CarouselTask { monitor_id: "DISPLAY2".to_string() };
    assert_eq!(task.key(), "carousel:DISPLAY2");
    assert_ne!(carousel_key("A"), carousel_key("B"));
    assert_eq!(FULLSCREEN_TIMER_KEY, "fullscreen_detector");
}

#[test]
fn carousel_interval_has_a_floor() {
    assert_eq!(carousel_interval_secs(300), 300);
    assert_eq!(carousel_interval_secs(MIN_PLAY_INTERVAL), 5);
    assert_eq!(carousel_interval_secs(1), 5);
    assert_eq!(carousel_interval_secs(-20), 5);
}

#[test]
fn display_modes() {
    assert!(is_sync_mode("mirror"));
    assert!(is_sync_mode("extend"));
    assert!(!is_sync_mode("independent"));
    assert!(is_independent_mode("independent"));
    assert!(!is_independent_mode("mirror"));
    assert_eq!(display_mode_or_default(None), "independent");
    assert_eq!(display_mode_or_default(Some("extend".to_string())), "extend");
}

#[test]
fn timer_may_start_only_when_active_enabled_and_bound() {
    assert!(should_start_timer(&config("A", true, true, Some(3), None)));
    assert!(!should_start_timer(&config("A", false, true, Some(3), None)));
    assert!(!should_start_timer(&config("A", true, false, Some(3), None)));
    assert!(!should_start_timer(&config("A", true, true, None, None)));
}

#[test]
fn patch_sets_only_what_it_carries() {
    let old = config("A", true, true, Some(3), Some(9));
    let mut patch = empty_patch();
    patch.play_interval = Some(60);
    patch.fit_mode = Some("contain".to_string());
    let r = apply_patch(old, patch, "2024-05-05 10:00:00".to_string());
    assert_eq!(r.play_interval, 60);
    assert_eq!(r.fit_mode, "contain");
    assert_eq!(r.collection_id, Some(3));
    assert_eq!(r.wallpaper_id, Some(9));
    assert_eq!(r.monitor_id, "A");
    assert_eq!(r.updated_at, "2024-05-05 10:00:00");

    let mut clear = empty_patch();
    clear.clear_collection = Some(true);
    clear.collection_id = Some(8);
    let r = apply_patch(config("A", true, true, Some(3), None), clear, "t".to_string());
    assert_eq!(r.collection_id, None);
}

#[test]
fn new_config_defaults() {
    let c = new_config("B".to_string(), empty_patch(), "now".to_string());
    assert_eq!(c.id, 0);
    assert_eq!(c.display_mode, "independent");
    assert_eq!(c.fit_mode, "cover");
    assert_eq!(c.play_mode, "sequential");
    assert_eq!(c.play_interval, DEFAULT_PLAY_INTERVAL);
    assert!(!c.is_enabled);
    assert!(!c.active);
    let mut p = empty_patch();
    p.collection_id = Some(4);
    p.is_enabled = Some(true);
    let c = new_config("B".to_string(), p, "now".to_string());
    assert_eq!(c.collection_id, Some(4));
    assert!(c.is_enabled);
}

#[test]
fn outcome_needs_more_than_one_wallpaper() {
    assert_eq!(outcome_from_count(Some(2)), CheckOutcome::Enough);
    assert_eq!(outcome_from_count(Some(1)), CheckOutcome::NotEnough);
    assert_eq!(outcome_from_count(Some(0)), CheckOutcome::NotEnough);
    assert_eq!(outcome_from_count(None), CheckOutcome::Failed);
}

#[test]
fn carousel_timer_plans() {
    let off = config("A", true, false, Some(3), None);
    assert_eq!(plan_carousel_timer(&off, true, true), TimerPlan::Now(TimerStep::Stop));
    let on = config("A", true, true, Some(3), None);
    let restart = plan_carousel_timer(&on, true, true);
    assert_eq!(restart, restart_check(3));
    assert_eq!(restart.resolve(CheckOutcome::NotEnough), TimerStep::Stop);
    let start = plan_carousel_timer(&on, false, false);
    assert_eq!(start.resolve(CheckOutcome::Enough), TimerStep::Start);
    assert_eq!(start.resolve(CheckOutcome::Failed), TimerStep::Keep);
    assert_eq!(plan_carousel_timer(&on, false, true), TimerPlan::Now(TimerStep::Keep));
}

#[test]
fn startup_in_sync_mode_starts_one_timer() {
    let configs = vec![
        config("A", true, true, Some(1), None),
        config("B", true, true, Some(2), None),
        config("C", false, true, Some(3), None),
    ];
    let mut pass = CarouselStartup::new(true);
    let mut started = Vec::new();
    for c in &configs {
        if let Some(cid) = pass.next_check(c) {
            if pass.record(CheckOutcome::Enough) {
                started.push(cid);
            }
        }
    }
    assert_eq!(started, vec![1]);

    let mut pass = CarouselStartup::new(false);
    let mut started = Vec::new();
    for c in &configs {
        if let Some(cid) = pass.next_check(c) {
            if pass.record(CheckOutcome::Enough) {
                started.push(cid);
            }
        }
    }
    assert_eq!(started, vec![1, 2]);
}

#[test]
fn switching_to_mirror_syncs_from_the_named_monitor() {
    let configs = vec![
        config("A", true, true, Some(1), Some(10)),
        config("B", true, true, Some(2), Some(20)),
        config("C", false, true, Some(3), Some(30)),
    ];
    let running = vec![true, true, false];
    let plan = plan_display_mode(&configs, &running, "mirror", Some("B"));
    assert_eq!(plan.sync_source, Some(1));
    assert_eq!(plan.sync_targets, vec![0]);
    assert_eq!(plan.notify, vec![0, 1]);
    assert_eq!(plan.timers, vec![(0, TimerPlan::Now(TimerStep::Stop)), (1, restart_check(2))]);
}

#[test]
fn switching_to_independent_starts_idle_timers() {
    let configs = vec![
        config("A", true, true, Some(1), Some(10)),
        config("B", true, true, Some(2), Some(20)),
        config("C", true, false, Some(3), Some(30)),
    ];
    let running = vec![true, false, false];
    let plan = plan_display_mode(&configs, &running, "independent", None);
    assert_eq!(plan.sync_source, None);
    assert!(plan.sync_targets.is_empty());
    assert_eq!(plan.notify, vec![0, 1, 2]);
    assert_eq!(plan.timers.len(), 2);
    assert_eq!(plan.timers[0].0, 0);
    assert_eq!(plan.timers[0].1.resolve(CheckOutcome::Enough), TimerStep::Keep);
    assert_eq!(plan.timers[1].0, 1);
    assert_eq!(plan.timers[1].1.resolve(CheckOutcome::Enough), TimerStep::Start);
}

#[test]
fn display_mode_without_active_monitor_does_nothing() {
    let configs = vec![config("A", false, true, Some(1), None)];
    let plan = plan_display_mode(&configs, &vec![false], "extend", None);
    assert_eq!(plan.sync_source, None);
    assert!(plan.notify.is_empty() && plan.timers.is_empty());
}

#[test]
fn removal_of_current_wallpaper() {
    let removed = vec![5, 6];
    assert_eq!(
        current_wallpaper_removed(2, Some(7), &removed),
        RemovalAction::Switch { wallpaper_id: 7, timer: restart_check(2) }
    );
    assert_eq!(current_wallpaper_removed(2, Some(6), &removed), RemovalAction::ClearAndStop);
    assert_eq!(current_wallpaper_removed(2, None, &removed), RemovalAction::ClearAndStop);
}

#[test]
fn collection_removal_steps() {
    let showing_removed = config("A", true, true, Some(2), Some(5));
    assert_eq!(
        collection_removal_step(&showing_removed, 2, &vec![5], true),
        CollectionRemovalStep::ReplaceCurrent
    );
    let other = config("A", true, true, Some(2), Some(4));
    match collection_removal_step(&other, 2, &vec![5], true) {
        CollectionRemovalStep::Recheck(p) => {
            assert_eq!(p.resolve(CheckOutcome::Enough), TimerStep::Keep);
            assert_eq!(p.resolve(CheckOutcome::NotEnough), TimerStep::Stop);
        }
        s => panic!("unexpected {:?}", s),
    }
    assert_eq!(collection_removal_step(&other, 2, &vec![5], false), CollectionRemovalStep::Nothing);
}

#[test]
fn deletion_helpers() {
    let c = config("A", true, true, Some(2), None);
    assert_eq!(deleted_wallpaper_source(&c), Some(2));
    assert!(clear_after_collection_deleted(&c));
    assert!(!clear_after_collection_deleted(&config("A", true, true, Some(2), Some(1))));
    assert!(contains_id(&vec![1, 2, 3], 2));
    assert!(!contains_id(&vec![], 2));
    let all = vec![config("A", true, true, Some(2), None), config("B", true, true, Some(3), None)];
    assert!(has_monitor(&all, "B"));
    assert!(!has_monitor(&all, "Z"));
}

#[test]
fn orphaned_running_timers_are_rechecked() {
    let all = vec![
        config("A", true, true, Some(2), None),
        config("B", true, true, Some(3), None),
        config("C", true, true, None, None),
        config("D", true, true, Some(4), None),
    ];
    let affected = vec![config("A", true, true, Some(2), None)];
    let plans = orphan_timer_plans(&all, &affected, &vec![true, true, true, false]);
    assert_eq!(plans.len(), 1);
    assert_eq!(plans[0].0, 1);
    assert_eq!(
        plans[0].1,
        TimerPlan::AfterCheck {
            collection_id: 3,
            enough: TimerStep::Keep,
            not_enough: TimerStep::Stop,
            failed: TimerStep::Stop
        }
    );
}

#[test]
fn tick_copies_only_in_sync_modes() {
    let all = vec![
        config("A", true, true, Some(2), None),
        config("B", true, true, Some(3), None),
        config("C", false, true, None, None),
    ];
    assert_eq!(carousel_tick_targets(&all, "A", true), vec![1]);
    assert!(carousel_tick_targets(&all, "A", false).is_empty());
}

#[test]
fn carousel_start_needs_a_config_and_a_collection() {
    let mut c = config("A", true, true, Some(7), None);
    c.play_interval = 2;
    assert_eq!(carousel_start(Some(&c)), Some((7, 5)));
    c.play_interval = 60;
    assert_eq!(carousel_start(Some(&c)), Some((7, 60)));
    assert_eq!(carousel_start(Some(&config("A", true, true, None, None))), None);
    assert_eq!(carousel_start(None), None);
}

#[test]
fn carousel_tick_decisions() {
    let all = vec![
        config("A", true, true, Some(2), None),
        config("B", true, true, Some(3), None),
        config("C", false, true, None, None),
    ];
    assert!(matches!(carousel_tick(TickRead::Missing, Ok(Some(5)), true, &all, "A", None), TickStep::Stop));
    assert!(matches!(carousel_tick(TickRead::Failed, Ok(Some(5)), true, &all, "A", None), TickStep::Skip));
    assert!(matches!(carousel_tick(TickRead::Found, Ok(None), true, &all, "A", None), TickStep::Skip));
    assert!(matches!(carousel_tick(TickRead::Found, Err(()), true, &all, "A", None), TickStep::Skip));
    assert!(matches!(carousel_tick(TickRead::Found, Ok(Some(5)), false, &all, "A", Some("mirror")), TickStep::Skip));
    match carousel_tick(TickRead::Found, Ok(Some(5)), true, &all, "A", Some("mirror")) {
        TickStep::Switch { wallpaper_id, sync_targets, is_sync } => {
            assert_eq!(wallpaper_id, 5);
            assert_eq!(sync_targets, vec![1]);
            assert!(is_sync);
        }
        s => panic!("unexpected {:?}", s),
    }
    match carousel_tick(TickRead::Found, Ok(Some(5)), true, &all, "A", None) {
        TickStep::Switch { wallpaper_id, sync_targets, is_sync } => {
            assert_eq!(wallpaper_id, 5);
            assert!(sync_targets.is_empty());
            assert!(!is_sync);
        }
        s => panic!("unexpected {:?}", s),
    }
}
