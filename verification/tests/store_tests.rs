use paperfold::records::SYNTHETIC_MESSAGE_ID;
use paperfold::store::Database;

fn folder_names_at_root(db: &Database) -> Vec<String> {
    let (folders, _) = db.list_contents(None);
    folders.into_iter().map(|f| f.name).collect()
}

#[test]
fn create_folder_uses_base_name_when_free() {
    let mut db = Database::new();
    let id = db.create_folder_at("Docs", None, "f1".to_string(), 100);
    assert_eq!(id, "f1");
    let f = db.get_folder_by_id("f1").unwrap();
    assert_eq!(f.name, "Docs");
    assert_eq!(f.parent_id, None);
    assert_eq!(f.created_at, 100);
    assert_eq!(f.last_modified, 100);
    assert!(!f.trashed);
    assert!(!f.is_starred);
}

#[test]
fn create_folder_appends_smallest_suffix() {
    let mut db = Database::new();
    db.create_folder_at("A", None, "f1".to_string(), 1);
    db.create_folder_at("A", None, "f2".to_string(), 2);
    db.create_folder_at("A", None, "f3".to_string(), 3);
    assert_eq!(db.get_folder_by_id("f1").unwrap().name, "A");
    assert_eq!(db.get_folder_by_id("f2").unwrap().name, "A (1)");
    assert_eq!(db.get_folder_by_id("f3").unwrap().name, "A (2)");
}

#[test]
fn naming_reuses_freed_suffix() {
    let mut db = Database::new();
    db.create_folder_at("A", None, "f1".to_string(), 1);
    db.create_folder_at("A", None, "f2".to_string(), 2); // "A (1)"
    db.create_folder_at("A", None, "f3".to_string(), 3); // "A (2)"
    db.trash_item_at("f2", true, 10);
    db.create_folder_at("A", None, "f4".to_string(), 4);
    // The smallest N whose candidate has no live holder is 1 again.
    assert_eq!(db.get_folder_by_id("f4").unwrap().name, "A (1)");
}

#[test]
fn get_unique_name_picks_smallest_free() {
    let mut db = Database::new();
    db.create_folder_at("A", None, "f1".to_string(), 1);
    db.create_folder_at("A", None, "f2".to_string(), 2);
    let n = db.get_unique_name(None, "A", true);
    assert_eq!(n, "A (2)");
    let free = db.get_unique_name(None, "B", true);
    assert_eq!(free, "B");
}

#[test]
fn folder_and_file_namespaces_are_separate() {
    let mut db = Database::new();
    db.create_folder_at("x", None, "f1".to_string(), 1);
    let rec = db.add_file_at(
        None,
        "x".to_string(),
        10,
        "text/plain".to_string(),
        7,
        None,
        "a1".to_string(),
        2,
    );
    // A file and a folder may share a name under one parent.
    assert_eq!(rec.name, "x");
}

#[test]
fn file_names_collide_within_their_kind() {
    let mut db = Database::new();
    let r1 = db.add_file_at(
        None,
        "n.txt".to_string(),
        1,
        "text/plain".to_string(),
        1,
        None,
        "a1".to_string(),
        1,
    );
    let r2 = db.add_file_at(
        None,
        "n.txt".to_string(),
        1,
        "text/plain".to_string(),
        2,
        None,
        "a2".to_string(),
        2,
    );
    assert_eq!(r1.name, "n.txt");
    assert_eq!(r2.name, "n.txt (1)");
}

#[test]
fn trash_then_restore_is_indistinguishable() {
    let mut db = Database::new();
    db.create_folder_at("Docs", None, "f1".to_string(), 100);
    let before = db.get_folder_by_id("f1").unwrap();
    db.trash_item_at("f1", true, 200);
    let trashed = db.get_folder_by_id("f1").unwrap();
    assert!(trashed.trashed);
    assert_eq!(trashed.trashed_at, Some(200));
    // Hidden from normal listings, shown in trash listings.
    assert!(folder_names_at_root(&db).is_empty());
    let (trash_folders, _) = db.list_trash();
    assert_eq!(trash_folders.len(), 1);
    db.restore_item("f1", true);
    let after = db.get_folder_by_id("f1").unwrap();
    assert_eq!(after.name, before.name);
    assert_eq!(after.parent_id, before.parent_id);
    assert_eq!(after.created_at, before.created_at);
    assert_eq!(after.trashed, before.trashed);
    assert_eq!(after.trashed_at, before.trashed_at);
    assert_eq!(after.is_starred, before.is_starred);
    assert_eq!(folder_names_at_root(&db), vec!["Docs".to_string()]);
    let (trash_folders, trash_files) = db.list_trash();
    assert!(trash_folders.is_empty() && trash_files.is_empty());
}

#[test]
fn trash_restore_file_roundtrip() {
    let mut db = Database::new();
    let rec = db.add_file_at(
        None,
        "a.txt".to_string(),
        5,
        "text/plain".to_string(),
        9,
        None,
        "a1".to_string(),
        50,
    );
    db.trash_item_at(&rec.id, false, 60);
    assert!(db.get_file(&rec.id).unwrap().trashed);
    db.restore_item(&rec.id, false);
    let back = db.get_file(&rec.id).unwrap();
    assert!(!back.trashed);
    assert_eq!(back.trashed_at, None);
    assert_eq!(back.name, "a.txt");
}

#[test]
fn sweep_cascades_into_trashed_folder() {
    let mut db = Database::new();
    db.create_folder_at("F", None, "f1".to_string(), 1);
    let g = db.add_file_at(
        Some("f1".to_string()),
        "G".to_string(),
        42,
        "text/plain".to_string(),
        77,
        None,
        "a1".to_string(),
        2,
    );
    assert!(!g.trashed);
    db.trash_item_at("f1", true, 100);
    // Sweep with a zero-day cutoff, after the trash moment.
    let removed = db.cleanup_trash_at(0, 200);
    // Both the folder and its never-trashed child file are gone.
    assert_eq!(removed.len(), 1);
    assert_eq!(removed[0].id, g.id);
    assert_eq!(removed[0].message_id, 77);
    assert!(db.get_folder_by_id("f1").is_none());
    assert!(db.get_file(&g.id).is_none());
}

#[test]
fn sweep_honours_the_cutoff() {
    let mut db = Database::new();
    let rec = db.add_file_at(
        None,
        "old.bin".to_string(),
        1,
        "application/octet-stream".to_string(),
        5,
        None,
        "a1".to_string(),
        1,
    );
    db.trash_item_at(&rec.id, false, 100);
    // Cutoff is now - days * 86400; at the boundary nothing is removed.
    let kept = db.cleanup_trash_at(1, 86500);
    assert!(kept.is_empty());
    assert!(db.get_file(&rec.id).is_some());
    let removed = db.cleanup_trash_at(1, 86501);
    assert_eq!(removed.len(), 1);
    assert!(db.get_file(&rec.id).is_none());
}

#[test]
fn sweep_leaves_live_records_alone() {
    let mut db = Database::new();
    db.create_folder_at("keep", None, "f1".to_string(), 1);
    db.add_file_at(
        None,
        "keep.txt".to_string(),
        1,
        "text/plain".to_string(),
        3,
        None,
        "a1".to_string(),
        1,
    );
    let removed = db.cleanup_trash_at(0, 1_000_000);
    assert!(removed.is_empty());
    assert!(db.get_folder_by_id("f1").is_some());
}

#[test]
fn move_folder_into_itself_is_rejected() {
    let mut db = Database::new();
    db.create_folder_at("F", None, "f1".to_string(), 1);
    let ok = db.move_folder("f1", Some("f1".to_string()), "renamed");
    assert!(!ok);
    let f = db.get_folder_by_id("f1").unwrap();
    assert_eq!(f.name, "F");
    assert_eq!(f.parent_id, None);
}

#[test]
fn move_folder_under_another() {
    let mut db = Database::new();
    db.create_folder_at("A", None, "f1".to_string(), 1);
    db.create_folder_at("B", None, "f2".to_string(), 2);
    assert!(db.move_folder("f2", Some("f1".to_string()), "B2"));
    let f = db.get_folder_by_id("f2").unwrap();
    assert_eq!(f.parent_id, Some("f1".to_string()));
    assert_eq!(f.name, "B2");
}

#[test]
fn rename_missing_returns_false() {
    let mut db = Database::new();
    assert!(!db.rename_folder("nope", "x"));
    assert!(!db.rename_file("nope", "x"));
    assert!(!db.move_file("nope", None, "x"));
    assert!(!db.toggle_star("nope", true));
    assert!(!db.delete_file("nope"));
}

#[test]
fn delete_folder_removes_only_direct_files() {
    let mut db = Database::new();
    db.create_folder_at("top", None, "f1".to_string(), 1);
    db.create_folder_at("sub", Some("f1".to_string()), "f2".to_string(), 2);
    let direct = db.add_file_at(
        Some("f1".to_string()),
        "d.txt".to_string(),
        1,
        "text/plain".to_string(),
        11,
        None,
        "a1".to_string(),
        3,
    );
    let nested = db.add_file_at(
        Some("f2".to_string()),
        "n.txt".to_string(),
        1,
        "text/plain".to_string(),
        12,
        None,
        "a2".to_string(),
        4,
    );
    let removed = db.delete_folder("f1");
    assert_eq!(removed.len(), 1);
    assert_eq!(removed[0].id, direct.id);
    // Folder removal is deliberately flat: the nested subfolder and its
    // file survive as orphans.
    assert!(db.get_folder_by_id("f2").is_some());
    assert!(db.get_file(&nested.id).is_some());
}

#[test]
fn toggle_star_flips_and_lists() {
    let mut db = Database::new();
    db.create_folder_at("S", None, "f1".to_string(), 1);
    assert!(db.toggle_star("f1", true));
    let (folders, files) = db.get_starred();
    assert_eq!(folders.len(), 1);
    assert!(files.is_empty());
    assert!(db.toggle_star("f1", true));
    let (folders, _) = db.get_starred();
    assert!(folders.is_empty());
}

#[test]
fn search_is_case_insensitive() {
    let mut db = Database::new();
    db.add_file_at(
        None,
        "Holiday Photos.zip".to_string(),
        1,
        "application/zip".to_string(),
        1,
        None,
        "a1".to_string(),
        1,
    );
    let (_, files) = db.search_items("hOlIdAy");
    assert_eq!(files.len(), 1);
    let (_, none) = db.search_items("winter");
    assert!(none.is_empty());
}

#[test]
fn search_matches_folder_tags() {
    let mut db = Database::new();
    db.create_folder_at("plain", None, "f1".to_string(), 1);
    db.update_folder_metadata_at(
        "f1",
        None,
        None,
        None,
        None,
        None,
        None,
        None,
        Some(vec!["ProjectX".to_string()]),
        None,
        None,
        9,
    );
    let (folders, _) = db.search_items("projectx");
    assert_eq!(folders.len(), 1);
    assert_eq!(folders[0].id, "f1");
}

#[test]
fn search_skips_trashed() {
    let mut db = Database::new();
    let rec = db.add_file_at(
        None,
        "secret.txt".to_string(),
        1,
        "text/plain".to_string(),
        1,
        None,
        "a1".to_string(),
        1,
    );
    db.trash_item_at(&rec.id, false, 5);
    let (_, files) = db.search_items("secret");
    assert!(files.is_empty());
}

#[test]
fn total_usage_counts_live_files_only() {
    let mut db = Database::new();
    db.add_file_at(
        None,
        "a".to_string(),
        100,
        "x".to_string(),
        1,
        None,
        "a1".to_string(),
        1,
    );
    let b = db.add_file_at(
        None,
        "b".to_string(),
        250,
        "x".to_string(),
        2,
        None,
        "a2".to_string(),
        1,
    );
    db.trash_item_at(&b.id, false, 5);
    assert_eq!(db.get_total_usage(), 100);
}

#[test]
fn folder_stats_sum_recursively() {
    let mut db = Database::new();
    db.create_folder_at("top", None, "f1".to_string(), 1);
    db.create_folder_at("sub", Some("f1".to_string()), "f2".to_string(), 2);
    db.add_file_at(
        Some("f1".to_string()),
        "a".to_string(),
        10,
        "x".to_string(),
        1,
        None,
        "a1".to_string(),
        1,
    );
    db.add_file_at(
        Some("f2".to_string()),
        "b".to_string(),
        32,
        "x".to_string(),
        2,
        None,
        "a2".to_string(),
        1,
    );
    let (bytes, items) = db.get_folder_stats("f1");
    // 10 + 32 bytes; the direct file, the nested file, and the subfolder
    // itself each count as one item.
    assert_eq!(bytes, 42);
    assert_eq!(items, 3);
}

#[test]
fn folder_stats_skip_trashed_children() {
    let mut db = Database::new();
    db.create_folder_at("top", None, "f1".to_string(), 1);
    let rec = db.add_file_at(
        Some("f1".to_string()),
        "a".to_string(),
        10,
        "x".to_string(),
        1,
        None,
        "a1".to_string(),
        1,
    );
    db.trash_item_at(&rec.id, false, 5);
    let (bytes, items) = db.get_folder_stats("f1");
    assert_eq!(bytes, 0);
    assert_eq!(items, 0);
}

#[test]
fn update_folder_metadata_merges() {
    let mut db = Database::new();
    db.create_folder_at("F", None, "f1".to_string(), 1);
    let ok = db.update_folder_metadata_at(
        "f1",
        Some("red".to_string()),
        None,
        None,
        None,
        Some("star".to_string()),
        None,
        Some(true),
        None,
        Some("notes".to_string()),
        None,
        500,
    );
    assert!(ok);
    let f = db.get_folder_by_id("f1").unwrap();
    assert_eq!(f.color, Some("red".to_string()));
    assert_eq!(f.emoji, Some("star".to_string()));
    assert!(f.show_badges);
    assert_eq!(f.description, Some("notes".to_string()));
    assert_eq!(f.last_modified, 500);
    // An empty string clears an attribute; an absent one keeps it.
    db.update_folder_metadata_at(
        "f1", Some(String::new()), None, None, None, None, None, None, None, None, None, 501,
    );
    let f = db.get_folder_by_id("f1").unwrap();
    assert_eq!(f.color, None);
    assert_eq!(f.emoji, Some("star".to_string()));
    assert!(!db.update_folder_metadata_at(
        "missing", None, None, None, None, None, None, None, None, None, None, 1,
    ));
}

#[test]
fn delete_files_by_ids_removes_listed() {
    let mut db = Database::new();
    let a = db.add_file_at(None, "a".to_string(), 1, "x".to_string(), 1, None, "a1".to_string(), 1);
    let b = db.add_file_at(None, "b".to_string(), 1, "x".to_string(), 2, None, "a2".to_string(), 1);
    db.delete_files_by_ids(&[a.id.clone()]);
    assert!(db.get_file(&a.id).is_none());
    assert!(db.get_file(&b.id).is_some());
}

#[test]
fn message_ids_come_in_record_order() {
    let mut db = Database::new();
    db.add_file_at(None, "a".to_string(), 1, "x".to_string(), 31, None, "a1".to_string(), 1);
    db.add_file_at(None, "b".to_string(), 1, "x".to_string(), 7, None, "a2".to_string(), 1);
    assert_eq!(db.get_existing_message_ids(), vec![31, 7]);
}

#[test]
fn move_file_to_sync_folder_moves_root_files_only() {
    let mut db = Database::new();
    db.create_folder_at("sync", None, "f1".to_string(), 1);
    db.create_folder_at("other", None, "f2".to_string(), 1);
    let rooted =
        db.add_file_at(None, "a".to_string(), 1, "x".to_string(), 10, None, "a1".to_string(), 1);
    let parented = db.add_file_at(
        Some("f2".to_string()),
        "b".to_string(),
        1,
        "x".to_string(),
        20,
        None,
        "a2".to_string(),
        1,
    );
    assert!(db.move_file_to_sync_folder(10, "f1").is_ok());
    assert!(db.move_file_to_sync_folder(20, "f1").is_ok());
    assert_eq!(db.get_file(&rooted.id).unwrap().folder_id, Some("f1".to_string()));
    assert_eq!(db.get_file(&parented.id).unwrap().folder_id, Some("f2".to_string()));
}

#[test]
fn synthetic_sentinel_is_minus_one() {
    assert_eq!(SYNTHETIC_MESSAGE_ID, -1);
}

#[test]
fn lookup_folder_name_finds_first() {
    let mut db = Database::new();
    db.create_folder_at("named", None, "f1".to_string(), 1);
    assert_eq!(db.lookup_folder_name("f1"), Some("named".to_string()));
    assert_eq!(db.lookup_folder_name("f9"), None);
}

#[test]
fn from_records_round_trip() {
    let mut db = Database::new();
    db.create_folder_at("A", None, "f1".to_string(), 1);
    db.add_file_at(None, "a".to_string(), 3, "x".to_string(), 1, None, "a1".to_string(), 1);
    let folders = db.get_all_folders();
    let files = db.get_all_files();
    let db2 = Database::from_records(folders, files);
    assert_eq!(db2.get_folder_by_id("f1").unwrap().name, "A");
    assert_eq!(db2.get_all_files().len(), 1);
}
