use mini_wallpaper::tags::{
    all_tag_ids_exist, dedup_ids, listed_first, listing_order, minus_ids, normalize_tag_name,
    plan_tag_links, sort_tags, tag_set_changes, TagNameError, TagWithCount,
};

fn tag(id: i32, name: &str, count: i64) -> TagWithCount {
    TagWithCount { id, name: name.to_string(), created_at: "2024-01-01".to_string(), wallpaper_count: count }
}

#[test]
fn tag_names_are_trimmed() {
    assert_eq!(normalize_tag_name("  sky "), Ok("sky".to_string()));
    assert_eq!(normalize_tag_name("\t\n "), Err(TagNameError::Empty));
}

#[test]
fn ids_are_deduplicated_in_order() {
    assert_eq!(dedup_ids(&vec![3, 1, 3, 2, 1]), vec![3, 1, 2]);
    assert!(dedup_ids(&vec![]).is_empty());
}

#[test]
fn set_difference_keeps_order() {
    assert_eq!(minus_ids(&vec![5, 6, 7, 6], &vec![6]), vec![5, 7]);
}

#[test]
fn tag_set_edit_adds_and_removes() {
    let (add, remove) = tag_set_changes(&vec![1, 2, 3], &vec![2, 4]);
    assert_eq!(add, vec![1, 3]);
    assert_eq!(remove, vec![4]);
}

#[test]
fn tagging_adds_missing_links_only() {
    let existing = vec![(1, 10)];
    assert_eq!(plan_tag_links(&existing, &vec![1, 2], &vec![10, 11]), vec![(1, 11), (2, 10), (2, 11)]);
}

#[test]
fn tag_existence_check() {
    assert!(all_tag_ids_exist(0, &vec![]));
    assert!(all_tag_ids_exist(2, &vec![5, 6, 5]));
    assert!(!all_tag_ids_exist(1, &vec![5, 6]));
}

#[test]
fn most_used_tags_come_first_then_by_name() {
    let tags = vec![tag(1, "b", 2), tag(2, "a", 2), tag(3, "z", 9), tag(4, "c", 0)];
    assert_eq!(listing_order(&tags), vec![2, 1, 0, 3]);
    let sorted = sort_tags(&tags);
    let names: Vec<&str> = sorted.iter().map(|t| t.name.as_str()).collect();
    assert_eq!(names, vec!["z", "a", "b", "c"]);
    assert!(listed_first(&tags[2], &tags[0]));
    assert!(!listed_first(&tags[0], &tags[1]));
}

#[test]
fn ties_keep_their_order() {
    let tags = vec![tag(1, "same", 1), tag(2, "same", 1), tag(3, "Same", 1)];
    assert_eq!(listing_order(&tags), vec![2, 0, 1]);
    assert!(listing_order(&vec![]).is_empty());
}

#[test]
fn tagging_twice_inserts_nothing_the_second_time() {
    let existing = vec![(1, 10)];
    let first = plan_tag_links(&existing, &vec![1, 2], &vec![10, 11, 10]);
    assert_eq!(first, vec![(1, 11), (2, 10), (2, 11)]);
    assert_eq!(first.len(), 3);
    let mut after = existing.clone();
    after.extend(first);
    assert!(plan_tag_links(&after, &vec![1, 2], &vec![10, 11, 10]).is_empty());
}
