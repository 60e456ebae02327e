use paperfold::adapter::{
    commit_plan, commit_remove_existing, is_junk_name, make_dir, open_plan, read_dir_entries,
    remove_dir, remove_file_path, rename_path, stat_path, CommitAction, OpenFlags, OpenPlan,
};
use paperfold::resolve::{resolve_path, FsError};
use paperfold::store::Database;

fn no_flags() -> OpenFlags {
    OpenFlags { read: false, write: false, append: false, truncate: false, create: false, create_new: false }
}

fn sample_tree() -> Database {
    let mut db = Database::new();
    db.create_folder_at("A", None, "fa".to_string(), 100);
    db.add_file_at(
        Some("fa".to_string()),
        "b.txt".to_string(),
        12,
        "text/plain".to_string(),
        5,
        None,
        "file-b".to_string(),
        200,
    );
    db
}

#[test]
fn make_dir_creates_and_conflicts() {
    let mut db = sample_tree();
    assert_eq!(make_dir(&mut db, "/A/new"), Ok(()));
    assert!(matches!(resolve_path(&db, "/A/new"), Ok((Some(_), true))));
    assert_eq!(make_dir(&mut db, "/A/new"), Err(FsError::Exists));
    assert_eq!(make_dir(&mut db, "/A/b.txt"), Err(FsError::Exists));
    assert_eq!(make_dir(&mut db, "/missing/child"), Err(FsError::NotFound));
    assert_eq!(make_dir(&mut db, "/"), Err(FsError::Forbidden));
}

#[test]
fn read_dir_lists_children_with_timestamps() {
    let db = sample_tree();
    let entries = read_dir_entries(&db, "/").unwrap();
    assert_eq!(entries.len(), 1);
    assert_eq!(entries[0].name, "A");
    assert!(entries[0].is_dir);
    assert_eq!(entries[0].len, 0);
    assert_eq!(entries[0].created_secs, 100);
    assert_eq!(entries[0].modified_secs, 100);
    let inner = read_dir_entries(&db, "/A").unwrap();
    assert_eq!(inner.len(), 1);
    assert_eq!(inner[0].name, "b.txt");
    assert!(!inner[0].is_dir);
    assert_eq!(inner[0].len, 12);
    assert_eq!(inner[0].created_secs, 200);
    assert_eq!(inner[0].modified_secs, 200);
}

#[test]
fn read_dir_refuses_files_and_missing_paths() {
    let db = sample_tree();
    assert!(matches!(read_dir_entries(&db, "/A/b.txt"), Err(FsError::Forbidden)));
    assert!(matches!(read_dir_entries(&db, "/nope"), Err(FsError::NotFound)));
}

#[test]
fn stat_reports_files_exactly_and_folders_at_epoch() {
    let db = sample_tree();
    let file = stat_path(&db, "/A/b.txt").unwrap();
    assert!(!file.is_dir);
    assert_eq!(file.len, 12);
    assert_eq!(file.created_secs, 200);
    assert_eq!(file.modified_secs, 200);
    let folder = stat_path(&db, "/A").unwrap();
    assert!(folder.is_dir);
    assert_eq!(folder.len, 0);
    assert_eq!(folder.created_secs, 0);
    let root = stat_path(&db, "/").unwrap();
    assert!(root.is_dir);
    assert_eq!(stat_path(&db, "/nope"), Err(FsError::NotFound));
}

#[test]
fn remove_file_and_dir_verbs() {
    let mut db = sample_tree();
    assert_eq!(remove_file_path(&mut db, "/A"), Err(FsError::Forbidden));
    assert_eq!(remove_file_path(&mut db, "/A/nope"), Err(FsError::NotFound));
    assert_eq!(remove_file_path(&mut db, "/A/b.txt"), Ok(()));
    assert_eq!(resolve_path(&db, "/A/b.txt"), Err(FsError::NotFound));

    let mut db = sample_tree();
    assert!(matches!(remove_dir(&mut db, "/A/b.txt"), Err(FsError::Forbidden)));
    assert!(matches!(remove_dir(&mut db, "/nope"), Err(FsError::NotFound)));
    let removed = remove_dir(&mut db, "/A").unwrap();
    assert_eq!(removed.len(), 1);
    assert_eq!(removed[0].message_id, 5);
    assert_eq!(resolve_path(&db, "/A"), Err(FsError::NotFound));
}

#[test]
fn rename_moves_files_between_folders() {
    let mut db = sample_tree();
    db.create_folder_at("B", None, "fb".to_string(), 300);
    assert_eq!(rename_path(&mut db, "/A/b.txt", "/B/c.txt"), Ok(()));
    assert_eq!(resolve_path(&db, "/A/b.txt"), Err(FsError::NotFound));
    assert_eq!(resolve_path(&db, "/B/c.txt"), Ok((Some("file-b".to_string()), false)));
}

#[test]
fn rename_folder_in_place() {
    let mut db = sample_tree();
    assert_eq!(rename_path(&mut db, "/A", "/Renamed"), Ok(()));
    assert_eq!(resolve_path(&db, "/Renamed"), Ok((Some("fa".to_string()), true)));
    assert_eq!(resolve_path(&db, "/Renamed/b.txt"), Ok((Some("file-b".to_string()), false)));
}

#[test]
fn rename_rejects_missing_and_cycles() {
    let mut db = sample_tree();
    assert_eq!(rename_path(&mut db, "/missing", "/x"), Err(FsError::NotFound));
    assert_eq!(rename_path(&mut db, "/A", "/missing/x"), Err(FsError::NotFound));
    // Moving a folder to be its own parent trips the cycle guard and
    // leaves the index unchanged.
    assert_eq!(rename_path(&mut db, "/A", "/A/A"), Err(FsError::GeneralFailure));
    assert_eq!(resolve_path(&db, "/A"), Ok((Some("fa".to_string()), true)));
    let f = db.get_folder_by_id("fa").unwrap();
    assert_eq!(f.parent_id, None);
    assert_eq!(f.name, "A");
}

#[test]
fn open_existing_file_for_read() {
    let db = sample_tree();
    let plan = open_plan(&db, "/A/b.txt", no_flags()).unwrap();
    match plan {
        OpenPlan::ReadFile(meta) => {
            assert_eq!(meta.id, "file-b");
            assert_eq!(meta.size, 12);
        },
        _ => panic!("expected a read plan"),
    }
}

#[test]
fn open_existing_file_for_overwrite_keeps_parent() {
    let db = sample_tree();
    let flags = OpenFlags { write: true, truncate: true, ..no_flags() };
    match open_plan(&db, "/A/b.txt", flags).unwrap() {
        OpenPlan::WriteFile { parent_id, name, overwrite } => {
            assert_eq!(parent_id, Some("fa".to_string()));
            assert_eq!(name, "b.txt");
            assert!(overwrite);
        },
        _ => panic!("expected a write plan"),
    }
}

#[test]
fn open_write_without_truncate_or_create_is_forbidden() {
    let db = sample_tree();
    let flags = OpenFlags { write: true, ..no_flags() };
    assert!(matches!(open_plan(&db, "/A/b.txt", flags), Err(FsError::Forbidden)));
}

#[test]
fn open_folder_is_forbidden() {
    let db = sample_tree();
    assert!(matches!(open_plan(&db, "/A", no_flags()), Err(FsError::Forbidden)));
    assert!(matches!(open_plan(&db, "/", no_flags()), Err(FsError::Forbidden)));
}

#[test]
fn open_missing_file_creates_under_existing_parent() {
    let db = sample_tree();
    let flags = OpenFlags { write: true, create: true, ..no_flags() };
    match open_plan(&db, "/A/new.txt", flags).unwrap() {
        OpenPlan::WriteFile { parent_id, name, overwrite } => {
            assert_eq!(parent_id, Some("fa".to_string()));
            assert_eq!(name, "new.txt");
            assert!(!overwrite);
        },
        _ => panic!("expected a write plan"),
    }
    match open_plan(&db, "/rooted.txt", flags).unwrap() {
        OpenPlan::WriteFile { parent_id, overwrite, .. } => {
            assert_eq!(parent_id, None);
            assert!(!overwrite);
        },
        _ => panic!("expected a write plan"),
    }
}

#[test]
fn open_missing_file_without_create_or_parent_fails() {
    let db = sample_tree();
    assert!(matches!(open_plan(&db, "/A/new.txt", no_flags()), Err(FsError::NotFound)));
    let flags = OpenFlags { write: true, create: true, ..no_flags() };
    assert!(matches!(open_plan(&db, "/missing/new.txt", flags), Err(FsError::NotFound)));
}

#[test]
fn commit_plan_cases() {
    assert!(matches!(commit_plan("a.txt", 0), CommitAction::StoreEmpty));
    assert!(matches!(commit_plan(".DS_Store", 10), CommitAction::DiscardJunk));
    assert!(matches!(commit_plan("._resource", 10), CommitAction::DiscardJunk));
    match commit_plan("a.txt", 10) {
        CommitAction::Upload { mime } => assert_eq!(mime, "text/plain"),
        _ => panic!("expected an upload"),
    }
    match commit_plan("movie.mp4", 10) {
        CommitAction::Upload { mime } => assert_eq!(mime, "video/mp4"),
        _ => panic!("expected an upload"),
    }
    match commit_plan("no_extension", 10) {
        CommitAction::Upload { mime } => assert_eq!(mime, "application/octet-stream"),
        _ => panic!("expected an upload"),
    }
}

#[test]
fn junk_names() {
    assert!(is_junk_name(".DS_Store"));
    assert!(is_junk_name("._anything"));
    assert!(!is_junk_name("file.txt"));
    assert!(!is_junk_name("."));
    assert!(!is_junk_name(".hidden"));
}

#[test]
fn commit_remove_existing_is_last_write_wins() {
    let mut db = Database::new();
    db.create_folder_at("A", None, "fa".to_string(), 1);
    let same = db.add_file_at(
        Some("fa".to_string()),
        "doc.txt".to_string(),
        1,
        "text/plain".to_string(),
        1,
        None,
        "a1".to_string(),
        1,
    );
    let other = db.add_file_at(
        Some("fa".to_string()),
        "keep.txt".to_string(),
        1,
        "text/plain".to_string(),
        2,
        None,
        "a2".to_string(),
        1,
    );
    let trashed = db.add_file_at(
        Some("fa".to_string()),
        "doc.txt".to_string(),
        1,
        "text/plain".to_string(),
        3,
        None,
        "a3".to_string(),
        1,
    );
    // The second "doc.txt" was renamed by the collision rule; trash it
    // and rename it back so a trashed namesake exists.
    db.trash_item_at(&trashed.id, false, 5);
    db.rename_file(&trashed.id, "doc.txt");
    let parent = "fa".to_string();
    commit_remove_existing(&mut db, Some(&parent), &"doc.txt".to_string());
    assert!(db.get_file(&same.id).is_none());
    assert!(db.get_file(&other.id).is_some());
    // Only live namesakes are swept.
    assert!(db.get_file(&trashed.id).is_some());
}
