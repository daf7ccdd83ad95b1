use mini_wallpaper::collection::{
    favorite_change, find_index, find_position, is_random_mode, max_sort_order,
    next_matched_id, next_wallpaper_id, order_by_ids, plan_add_wallpapers, plan_reorder,
    plan_resequence, prev_matched_id, prev_wallpaper_id, restore_position, validate_name,
    CollectionEntry, FavoriteChange, NameError, Seek, MAX_NAME_CHARS, TRASH_SORT_ORDER,
};

fn e(wallpaper_id: i32, sort_order: i32) -> CollectionEntry {
    CollectionEntry { wallpaper_id, sort_order }
}

#[test]
fn collection_names() {
    assert_eq!(validate_name("  Nature  "), Ok(()));
    assert_eq!(validate_name("   "), Err(NameError::Empty));
    assert_eq!(validate_name(""), Err(NameError::Empty));
    let long: String = "x".repeat(MAX_NAME_CHARS + 1);
    assert_eq!(validate_name(&long), Err(NameError::TooLong));
    let exact: String = "é".repeat(MAX_NAME_CHARS);
    assert_eq!(validate_name(&exact), Ok(()));
    assert_eq!(validate_name(&format!("  {}  ", exact)), Ok(()));
}

#[test]
fn sequential_next_wraps() {
    let rows = vec![e(10, 0), e(11, 1), e(13, 2)];
    assert_eq!(next_wallpaper_id(&rows, Some(10), "sequential", 0), Some(11));
    assert_eq!(next_wallpaper_id(&rows, Some(11), "sequential", 0), Some(13));
    assert_eq!(next_wallpaper_id(&rows, Some(13), "sequential", 0), Some(10));
    assert_eq!(next_wallpaper_id(&rows, None, "sequential", 0), Some(10));
    assert_eq!(next_wallpaper_id(&rows, Some(99), "sequential", 0), Some(10));
    assert_eq!(next_wallpaper_id(&vec![], Some(1), "sequential", 0), None);
}

#[test]
fn parked_member_is_skipped() {
    let rows = vec![e(40, TRASH_SORT_ORDER), e(10, 0), e(20, 1)];
    assert_eq!(next_wallpaper_id(&rows, Some(20), "sequential", 0), Some(10));
    assert_eq!(prev_wallpaper_id(&rows, Some(10), "sequential", 0), Some(20));
    assert_eq!(next_wallpaper_id(&rows, Some(40), "sequential", 0), Some(10));
    for pick in 0..6 {
        assert_eq!(next_wallpaper_id(&rows, Some(10), "random", pick), Some(20));
    }
    assert_eq!(next_wallpaper_id(&vec![e(40, TRASH_SORT_ORDER)], None, "sequential", 0), None);
    assert_eq!(next_wallpaper_id(&vec![e(40, TRASH_SORT_ORDER)], None, "random", 3), None);
}

#[test]
fn sequential_prev_wraps() {
    let rows = vec![e(20, 5), e(21, 1), e(22, 3)];
    assert_eq!(prev_wallpaper_id(&rows, Some(21), "sequential", 0), Some(20));
    assert_eq!(prev_wallpaper_id(&rows, Some(20), "sequential", 0), Some(22));
    assert_eq!(prev_wallpaper_id(&rows, None, "sequential", 0), Some(20));
}

#[test]
fn prev_undoes_next() {
    let rows = vec![e(20, 5), e(21, 1), e(22, 3), e(23, 9)];
    for w in [20, 21, 22, 23] {
        let n = next_wallpaper_id(&rows, Some(w), "sequential", 0);
        assert_eq!(prev_wallpaper_id(&rows, n, "sequential", 0), Some(w));
    }
}

#[test]
fn random_never_repeats_the_current_one() {
    let rows = vec![e(1, 0), e(2, 1), e(3, 2)];
    assert!(is_random_mode("random"));
    assert!(!is_random_mode("sequential"));
    assert_eq!(next_wallpaper_id(&rows, Some(2), "random", 0), Some(1));
    assert_eq!(next_wallpaper_id(&rows, Some(2), "random", 1), Some(3));
    assert_eq!(next_wallpaper_id(&rows, Some(2), "random", 2), Some(1));
    assert_eq!(prev_wallpaper_id(&rows, Some(1), "random", 7), Some(3));
    let single = vec![e(5, 0)];
    assert_eq!(next_wallpaper_id(&single, Some(5), "random", 42), Some(5));
}

#[test]
fn seeks() {
    let rows = vec![e(1, 4), e(2, 2), e(3, TRASH_SORT_ORDER), e(4, 8)];
    assert_eq!(find_index(&rows, Seek::First), Some(1));
    assert_eq!(find_index(&rows, Seek::Last), Some(3));
    assert_eq!(find_index(&rows, Seek::After(4)), Some(3));
    assert_eq!(find_index(&rows, Seek::After(2)), Some(0));
    assert_eq!(find_index(&rows, Seek::Before(2)), None);
    assert_eq!(find_index(&rows, Seek::Before(5)), Some(0));
    assert_eq!(find_index(&vec![], Seek::First), None);
    assert_eq!(find_position(&rows, 4), Some(3));
    assert_eq!(find_position(&rows, 9), None);
}

#[test]
fn adding_appends_new_members() {
    let existing = vec![e(1, 0), e(2, 1)];
    assert_eq!(max_sort_order(&existing), 1);
    assert_eq!(max_sort_order(&vec![]), -1);
    let plan = plan_add_wallpapers(&existing, &vec![2, 3, 4]);
    assert_eq!(plan, vec![e(3, 2), e(4, 3)]);
    let plan = plan_add_wallpapers(&existing, &vec![3, 1, 3]);
    assert_eq!(plan, vec![e(3, 2), e(3, 3)]);
    let plan = plan_add_wallpapers(&vec![], &vec![7]);
    assert_eq!(plan, vec![e(7, 0)]);
}

#[test]
fn reorder_numbers_by_index() {
    assert_eq!(plan_reorder(&vec![9, 4, 6]), vec![e(9, 0), e(4, 1), e(6, 2)]);
}

#[test]
fn reorder_sets_the_play_order() {
    let rows = plan_reorder(&vec![9, 4, 6]);
    assert_eq!(next_wallpaper_id(&rows, Some(9), "sequential", 0), Some(4));
    assert_eq!(next_wallpaper_id(&rows, Some(4), "sequential", 0), Some(6));
    assert_eq!(next_wallpaper_id(&rows, Some(6), "sequential", 0), Some(9));
    assert_eq!(prev_wallpaper_id(&rows, Some(9), "sequential", 0), Some(6));
    assert_eq!(prev_wallpaper_id(&rows, Some(6), "sequential", 0), Some(4));
}

#[test]
fn resequence_closes_gaps_and_keeps_the_trash() {
    let rows = vec![e(1, 10), e(2, TRASH_SORT_ORDER), e(3, 4), e(4, 7)];
    let updates = plan_resequence(&rows);
    assert_eq!(updates, vec![e(1, 2), e(3, 0), e(4, 1)]);
    assert!(plan_resequence(&vec![e(1, 0), e(2, 1)]).is_empty());
}

#[test]
fn restore_goes_to_the_end() {
    assert_eq!(restore_position(&vec![e(1, 0), e(2, 3), e(3, TRASH_SORT_ORDER)]), 4);
    assert_eq!(restore_position(&vec![e(3, TRASH_SORT_ORDER)]), 0);
    assert_eq!(restore_position(&vec![]), 0);
}

#[test]
fn records_in_member_order() {
    assert_eq!(order_by_ids(&vec![3, 1, 2, 9], &vec![1, 2, 3]), vec![2, 0, 1]);
}

#[test]
fn smart_collections_step_by_id() {
    let matched = vec![4, 8, 15];
    assert_eq!(next_matched_id(&matched, Some(8), "sequential", 0), Some(15));
    assert_eq!(next_matched_id(&matched, Some(15), "sequential", 0), Some(4));
    assert_eq!(prev_matched_id(&matched, Some(4), "sequential", 0), Some(15));
    assert_eq!(next_matched_id(&vec![], None, "sequential", 0), None);
    assert_eq!(next_matched_id(&vec![15, 4, 8], Some(4), "sequential", 0), Some(8));
    assert_eq!(next_matched_id(&matched, None, "sequential", 0), Some(4));
    assert_eq!(prev_matched_id(&matched, None, "sequential", 0), Some(15));
    assert_eq!(next_matched_id(&matched, Some(8), "random", 0), Some(4));
    assert_eq!(next_matched_id(&matched, Some(8), "random", 1), Some(15));
    assert_eq!(prev_matched_id(&matched, Some(8), "random", 1), Some(15));
    assert_eq!(next_matched_id(&vec![7], Some(7), "random", 3), Some(7));
}

#[test]
fn smart_collection_steps_from_a_wallpaper_that_left_the_set() {
    let matched = vec![1, 5];
    assert_eq!(next_matched_id(&matched, Some(3), "sequential", 0), Some(5));
    assert_eq!(prev_matched_id(&matched, Some(3), "sequential", 0), Some(1));
    assert_eq!(next_matched_id(&matched, Some(9), "sequential", 0), Some(1));
    assert_eq!(prev_matched_id(&matched, Some(0), "sequential", 0), Some(5));
}

#[test]
fn favorite_toggles() {
    assert_eq!(favorite_change(false), FavoriteChange::Add);
    assert_eq!(favorite_change(true), FavoriteChange::Remove);
    assert!(favorite_change(false).favorited());
    assert!(!favorite_change(true).favorited());
}
