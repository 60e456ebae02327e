use paperfold::resolve::{resolve_path, split_path, FsError};
use paperfold::store::Database;

fn sample_tree() -> Database {
    let mut db = Database::new();
    db.create_folder_at("A", None, "fa".to_string(), 1);
    db.add_file_at(
        Some("fa".to_string()),
        "b.txt".to_string(),
        12,
        "text/plain".to_string(),
        5,
        None,
        "file-b".to_string(),
        2,
    );
    db
}

#[test]
fn split_path_drops_empty_segments() {
    assert_eq!(split_path("/a/b"), vec!["a".to_string(), "b".to_string()]);
    assert_eq!(split_path("a//b/"), vec!["a".to_string(), "b".to_string()]);
    assert_eq!(split_path("/"), Vec::<String>::new());
    assert_eq!(split_path(""), Vec::<String>::new());
    assert_eq!(split_path("single"), vec!["single".to_string()]);
}

#[test]
fn resolves_folder_then_file_then_missing() {
    let db = sample_tree();
    assert_eq!(resolve_path(&db, "/A"), Ok((Some("fa".to_string()), true)));
    assert_eq!(resolve_path(&db, "/A/b.txt"), Ok((Some("file-b".to_string()), false)));
    assert_eq!(resolve_path(&db, "/A/missing.txt"), Err(FsError::NotFound));
}

#[test]
fn empty_path_is_the_root_folder() {
    let db = sample_tree();
    assert_eq!(resolve_path(&db, "/"), Ok((None, true)));
    assert_eq!(resolve_path(&db, ""), Ok((None, true)));
}

#[test]
fn repeated_slashes_resolve_like_single_ones() {
    let db = sample_tree();
    assert_eq!(resolve_path(&db, "//A//b.txt"), Ok((Some("file-b".to_string()), false)));
}

#[test]
fn descends_through_nested_folders() {
    let mut db = sample_tree();
    db.create_folder_at("inner", Some("fa".to_string()), "fi".to_string(), 3);
    assert_eq!(resolve_path(&db, "/A/inner"), Ok((Some("fi".to_string()), true)));
    assert_eq!(resolve_path(&db, "/A/inner/x"), Err(FsError::NotFound));
}

#[test]
fn trashed_nodes_do_not_resolve() {
    let mut db = sample_tree();
    db.trash_item_at("fa", true, 9);
    assert_eq!(resolve_path(&db, "/A"), Err(FsError::NotFound));
    // The child stays unreachable even though its own record is live.
    assert_eq!(resolve_path(&db, "/A/b.txt"), Err(FsError::NotFound));
}

#[test]
fn a_file_cannot_be_descended_into() {
    let db = sample_tree();
    assert_eq!(resolve_path(&db, "/A/b.txt/deeper"), Err(FsError::NotFound));
}

#[test]
fn folder_wins_over_file_of_the_same_name() {
    let mut db = Database::new();
    db.create_folder_at("x", None, "fx".to_string(), 1);
    db.add_file_at(
        None,
        "x".to_string(),
        1,
        "text/plain".to_string(),
        5,
        None,
        "filex".to_string(),
        2,
    );
    assert_eq!(resolve_path(&db, "/x"), Ok((Some("fx".to_string()), true)));
}
