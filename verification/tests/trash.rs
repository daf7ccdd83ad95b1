use mini_wallpaper::collection::{CollectionEntry, TRASH_SORT_ORDER};
use mini_wallpaper::trash::{
    acts, affected_collections, batch_targets, drop_members, expired_ids, park_members,
    released_reference, BatchOp, Lookup,
};

fn e(wallpaper_id: i32, sort_order: i32) -> CollectionEntry {
    CollectionEntry { wallpaper_id, sort_order }
}

#[test]
fn each_operation_acts_on_its_states() {
    assert!(acts(BatchOp::Trash, Lookup::Active));
    assert!(!acts(BatchOp::Trash, Lookup::Trashed));
    assert!(!acts(BatchOp::Trash, Lookup::Missing));
    assert!(acts(BatchOp::Restore, Lookup::Trashed));
    assert!(!acts(BatchOp::Restore, Lookup::Active));
    assert!(acts(BatchOp::Delete, Lookup::Active));
    assert!(acts(BatchOp::Delete, Lookup::Trashed));
    assert!(!acts(BatchOp::Delete, Lookup::Missing));
}

#[test]
fn trash_skips_missing_and_trashed_and_repeats() {
    let ids = vec![1, 2, 3, 1, 4];
    let found = vec![Lookup::Active, Lookup::Trashed, Lookup::Missing, Lookup::Active, Lookup::Active];
    assert_eq!(batch_targets(BatchOp::Trash, &ids, &found), vec![1, 4]);
    assert_eq!(batch_targets(BatchOp::Restore, &ids, &found), vec![2]);
    assert_eq!(batch_targets(BatchOp::Delete, &ids, &found), vec![1, 2, 4]);
    assert!(batch_targets(BatchOp::Trash, &vec![], &vec![]).is_empty());
}

#[test]
fn restoring_a_trashed_batch_brings_it_back() {
    let ids = vec![7, 8, 9];
    let before = vec![Lookup::Active, Lookup::Missing, Lookup::Active];
    let trashed = batch_targets(BatchOp::Trash, &ids, &before);
    let after: Vec<Lookup> = ids
        .iter()
        .zip(before.iter())
        .map(|(id, l)| if trashed.contains(id) { Lookup::Trashed } else { *l })
        .collect();
    assert_eq!(batch_targets(BatchOp::Restore, &ids, &after), trashed);
    assert!(batch_targets(BatchOp::Trash, &ids, &after).is_empty());
}

#[test]
fn affected_collections_are_listed_once() {
    let links = vec![(1, 10), (2, 10), (1, 11), (3, 12), (2, 13)];
    let mut r = affected_collections(&links, &vec![10, 11]);
    r.sort();
    assert_eq!(r, vec![1, 2]);
    assert!(affected_collections(&links, &vec![99]).is_empty());
}

#[test]
fn trashed_members_are_parked() {
    let rows = vec![e(1, 0), e(2, 1), e(3, 2)];
    assert_eq!(park_members(&rows, &vec![2]), vec![e(1, 0), e(2, TRASH_SORT_ORDER), e(3, 2)]);
}

#[test]
fn deleted_members_are_dropped() {
    let rows = vec![e(1, 0), e(2, 1), e(3, 2)];
    assert_eq!(drop_members(&rows, &vec![1, 3]), vec![e(2, 1)]);
    assert_eq!(drop_members(&rows, &vec![]), rows);
}

#[test]
fn monitors_showing_removed_wallpapers_are_released() {
    assert_eq!(released_reference(Some(4), &vec![4, 5]), None);
    assert_eq!(released_reference(Some(6), &vec![4, 5]), Some(6));
    assert_eq!(released_reference(None, &vec![4]), None);
}

#[test]
fn expired_trash_is_older_than_the_cutoff() {
    let trashed = vec![
        (1, "2024-01-01 10:00:00".to_string()),
        (2, "2024-03-01 00:00:00".to_string()),
        (3, "2023-12-31 23:59:59".to_string()),
        (4, "2024-02-01 00:00:00".to_string()),
    ];
    assert_eq!(expired_ids(&trashed, "2024-02-01 00:00:00"), vec![1, 3]);
    assert!(expired_ids(&trashed, "2000-01-01 00:00:00").is_empty());
}
