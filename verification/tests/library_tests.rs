use gcsf::auth::{auth_url, extract_code_from_request, extract_code_from_url, redirect_uri, split_whitespace, token_lifetime};
use gcsf::config::Config;
use gcsf::fetcher::{DataFetcher, GoogleDriveFetcher, InMemoryFetcher};
use gcsf::file::{DriveFile, File, FileAttr, FileId, FileType, FsError, Timestamp};
use gcsf::file_manager::{FileManager, TRASH_INODE};
use gcsf::filesystem::{
    capacity_or_unlimited, merge_attr, statfs_values, DriveAction, Errno, SetAttrRequest, TimeOrNow,
};
use gcsf::sync::Change;

fn drive_file(name: &str, id: &str, parent: Option<&str>) -> DriveFile {
    let mut d = DriveFile::empty();
    d.id = Some(id.to_string());
    d.name = Some(name.to_string());
    d.parents = parent.map(|p| vec![p.to_string()]);
    d
}

fn folder(name: &str, id: &str, parent: Option<&str>) -> DriveFile {
    let mut d = drive_file(name, id, parent);
    d.mime_type = Some("application/vnd.google-apps.folder".to_string());
    d
}

fn plain_file(name: &str, inode: u64, drive_id: Option<&str>) -> File {
    let mut d = DriveFile::empty();
    d.id = drive_id.map(|s| s.to_string());
    d.name = Some(name.to_string());
    File {
        name: name.to_string(),
        attr: FileAttr {
            ino: inode,
            size: 10,
            blocks: 1,
            atime: Timestamp::epoch(),
            mtime: Timestamp::epoch(),
            ctime: Timestamp::epoch(),
            crtime: Timestamp::epoch(),
            kind: FileType::RegularFile,
            perm: 0o644,
            nlink: 1,
            uid: 0,
            gid: 0,
            rdev: 0,
            blksize: 512,
            flags: 0,
        },
        identical_name_id: None,
        drive_file: Some(d),
    }
}

fn dir_file(name: &str, inode: u64, drive_id: &str) -> File {
    let mut f = plain_file(name, inode, Some(drive_id));
    f.attr.kind = FileType::Directory;
    f
}

// ---------- File ----------

#[test]
fn from_drive_file_folder_is_directory_of_512_bytes() {
    let mut d = folder("Docs", "id1", Some("root"));
    d.size = Some(123456);
    let f = File::from_drive_file(7, d, false);
    assert_eq!(f.attr.kind, FileType::Directory);
    assert_eq!(f.attr.size, 512);
    assert_eq!(f.attr.blocks, 1);
    assert_eq!(f.attr.ino, 7);
    assert_eq!(f.attr.perm, 0o755);
    assert_eq!(f.attr.nlink, 2);
    assert_eq!(f.attr.blksize, 512);
    assert_eq!(f.name, "Docs");
    assert!(f.is_dir());
}

#[test]
fn from_drive_file_sizes_and_blocks() {
    let mut d = drive_file("a.bin", "id", None);
    d.size = Some(1000);
    let f = File::from_drive_file(8, d, false);
    assert_eq!(f.attr.kind, FileType::RegularFile);
    assert_eq!(f.attr.size, 1000);
    assert_eq!(f.attr.blocks, 2);

    let mut d = drive_file("b.bin", "id", None);
    d.size = Some(1024);
    assert_eq!(File::from_drive_file(9, d, false).attr.blocks, 2);

    let mut d = drive_file("c.bin", "id", None);
    d.size = Some(-5);
    let f = File::from_drive_file(10, d, false);
    assert_eq!(f.attr.size, 0);
    assert_eq!(f.attr.blocks, 0);

    let d = drive_file("d.bin", "id", None);
    let f = File::from_drive_file(11, d, false);
    assert_eq!(f.attr.size, 10 * 1024 * 1024);
    assert_eq!(f.attr.blocks, 20480);
}

#[test]
fn from_drive_file_times() {
    let mut d = drive_file("t", "id", None);
    d.created_time = Some(Timestamp { secs: 5, nanos: 1 });
    d.modified_time = Some(Timestamp { secs: 6, nanos: 2 });
    let f = File::from_drive_file(12, d, false);
    assert_eq!(f.attr.crtime, Timestamp { secs: 5, nanos: 1 });
    assert_eq!(f.attr.mtime, Timestamp { secs: 6, nanos: 2 });
    assert_eq!(f.attr.ctime, Timestamp { secs: 6, nanos: 2 });
    assert_eq!(f.attr.atime, Timestamp::epoch());
}

#[test]
fn from_drive_file_filters_forbidden_characters() {
    let d = drive_file("a/b:c*d?e<f>g|h\\i", "id", None);
    let f = File::from_drive_file(13, d, false);
    assert_eq!(f.name, "abcdefghi");
}

#[test]
fn from_drive_file_adds_extension_only_when_asked() {
    let mut d = drive_file("Budget", "id", None);
    d.mime_type = Some("application/vnd.google-apps.spreadsheet".to_string());
    let f = File::from_drive_file(14, d.clone(), true);
    assert_eq!(f.name, "Budget#.ods");
    assert!(f.is_drive_document());
    let g = File::from_drive_file(15, d, false);
    assert_eq!(g.name, "Budget");
    let mut e = drive_file("Slides", "id", None);
    e.mime_type = Some("application/vnd.google-apps.presentation".to_string());
    assert_eq!(File::from_drive_file(16, e, true).name, "Slides#.odp");
    let mut p = drive_file("photo.png", "id", None);
    p.mime_type = Some("image/png".to_string());
    let h = File::from_drive_file(17, p, true);
    assert_eq!(h.name, "photo.png");
    assert!(!h.is_drive_document());
}

#[test]
fn file_accessors() {
    let mut d = drive_file("x", "the_id", Some("parent_id"));
    d.mime_type = Some("text/plain".to_string());
    let mut f = File::from_drive_file(20, d, false);
    assert_eq!(f.drive_id(), Some("the_id".to_string()));
    assert_eq!(f.drive_parent(), Some("parent_id".to_string()));
    assert_eq!(f.mime_type(), Some("text/plain".to_string()));
    assert_eq!(f.inode(), 20);
    assert_eq!(f.kind(), FileType::RegularFile);
    assert!(!f.is_trashed());
    assert_eq!(f.set_trashed(true), Ok(()));
    assert!(f.is_trashed());
    f.set_drive_id("new_id".to_string());
    assert_eq!(f.drive_id(), Some("new_id".to_string()));
}

#[test]
fn set_trashed_without_drive_file_fails() {
    let mut f = plain_file("x", 5, None);
    f.drive_file = None;
    assert_eq!(f.set_trashed(true), Err(FsError::NoDriveFile));
    f.set_drive_id("ignored".to_string());
    assert_eq!(f.drive_id(), None);
    assert!(!f.is_trashed());
}

// ---------- FileManager: tree operations ----------

fn manager_with_tree() -> FileManager {
    // root(1) -> a(100) -> b(101) -> c.txt(102); root -> d(200); root -> Trash(2)
    let mut fm = FileManager::new_for_testing(false);
    fm.add_test_file(dir_file("Trash", TRASH_INODE, "trash_id"), 1).unwrap();
    fm.add_test_file(dir_file("a", 100, "id_a"), 1).unwrap();
    fm.add_test_file(dir_file("b", 101, "id_b"), 100).unwrap();
    fm.add_test_file(plain_file("c.txt", 102, Some("id_c")), 101).unwrap();
    fm.add_test_file(dir_file("d", 200, "id_d"), 1).unwrap();
    fm
}

fn child_names(fm: &FileManager, ino: u64) -> Vec<String> {
    fm.get_children(&FileId::Inode(ino)).unwrap().iter().map(|f| f.name()).collect()
}

#[test]
fn lookups_by_every_kind_of_id() {
    let fm = manager_with_tree();
    assert_eq!(fm.get_inode(&FileId::DriveId("id_c".to_string())), Some(102));
    assert_eq!(fm.get_inode(&FileId::ParentAndName { parent: 101, name: "c.txt".to_string() }), Some(102));
    assert_eq!(fm.get_inode(&FileId::ParentAndName { parent: 101, name: "zzz".to_string() }), None);
    assert_eq!(fm.get_node_id(&FileId::Inode(102)), Some(102));
    assert_eq!(fm.get_node_id(&FileId::Inode(999)), None);
    assert_eq!(fm.get_inode(&FileId::Inode(999)), Some(999));
    assert!(fm.contains(&FileId::DriveId("id_a".to_string())));
    assert!(!fm.contains(&FileId::DriveId("nope".to_string())));
    assert!(fm.contains(&FileId::NodeId(200)));
    assert_eq!(fm.get_drive_id(&FileId::Inode(200)), Some("id_d".to_string()));
    assert_eq!(child_names(&fm, 1), vec!["Trash", "a", "d"]);
    assert!(fm.get_children(&FileId::Inode(999)).is_none());
}

#[test]
fn adding_under_a_missing_parent_fails() {
    let mut fm = manager_with_tree();
    assert_eq!(fm.add_test_file(plain_file("x", 300, None), 999), Err(FsError::ParentNotFound));
    assert!(!fm.contains(&FileId::Inode(300)));
}

#[test]
fn adding_a_same_named_sibling_counts_the_existing_ones() {
    let mut fm = FileManager::new_for_testing(true);
    fm.add_test_file(plain_file("n.txt", 10, Some("x1")), 1).unwrap();
    fm.add_test_file(plain_file("n.txt", 11, Some("x2")), 1).unwrap();
    fm.add_test_file(plain_file("n.txt", 12, Some("x3")), 1).unwrap();
    assert_eq!(child_names(&fm, 1), vec!["n.txt", "n.txt.1", "n.txt.2"]);
    assert_eq!(fm.get_inode(&FileId::ParentAndName { parent: 1, name: "n.txt.2".to_string() }), Some(12));
}

#[test]
fn move_appends_to_new_parent() {
    let mut fm = manager_with_tree();
    assert_eq!(fm.move_locally(&FileId::Inode(102), &FileId::Inode(200)), Ok(()));
    assert_eq!(child_names(&fm, 200), vec!["c.txt"]);
    assert!(child_names(&fm, 101).is_empty());
    assert_eq!(fm.move_locally(&FileId::Inode(101), &FileId::DriveId("id_d".to_string())), Ok(()));
    assert_eq!(child_names(&fm, 200), vec!["c.txt", "b"]);
}

#[test]
fn move_errors() {
    let mut fm = manager_with_tree();
    assert_eq!(fm.move_locally(&FileId::Inode(100), &FileId::Inode(102)), Err(FsError::MoveIntoOwnSubtree));
    assert_eq!(fm.move_locally(&FileId::Inode(100), &FileId::Inode(100)), Err(FsError::MoveIntoOwnSubtree));
    assert_eq!(fm.move_locally(&FileId::Inode(1), &FileId::Inode(200)), Err(FsError::MoveIntoOwnSubtree));
    assert_eq!(fm.move_locally(&FileId::Inode(100), &FileId::Inode(999)), Err(FsError::TargetNotFound));
    assert_eq!(fm.move_locally(&FileId::Inode(999), &FileId::Inode(1)), Err(FsError::NotFound));
    assert_eq!(child_names(&fm, 1), vec!["Trash", "a", "d"]);
}

#[test]
fn delete_removes_the_whole_subtree() {
    let mut fm = manager_with_tree();
    assert_eq!(fm.delete_locally(&FileId::Inode(100)), Ok(()));
    assert!(!fm.contains(&FileId::Inode(100)));
    assert!(!fm.contains(&FileId::Inode(101)));
    assert!(!fm.contains(&FileId::Inode(102)));
    assert!(!fm.contains(&FileId::DriveId("id_a".to_string())));
    assert!(!fm.contains(&FileId::DriveId("id_b".to_string())));
    assert!(!fm.contains(&FileId::DriveId("id_c".to_string())));
    assert!(fm.contains(&FileId::DriveId("id_d".to_string())));
    assert!(fm.contains(&FileId::Inode(200)));
    assert_eq!(child_names(&fm, 1), vec!["Trash", "d"]);
    assert_eq!(fm.file_count(), 3);
}

#[test]
fn delete_needs_a_drive_id() {
    let mut fm = manager_with_tree();
    fm.add_test_file(plain_file("local", 300, None), 1).unwrap();
    assert_eq!(fm.delete_locally(&FileId::Inode(300)), Err(FsError::NoDriveId));
    assert_eq!(fm.delete(&FileId::Inode(300)), Err(FsError::NoDriveId));
    assert_eq!(fm.delete(&FileId::Inode(102)), Ok("id_c".to_string()));
    assert!(!fm.contains(&FileId::Inode(102)));
}

#[test]
fn trash_moves_and_marks() {
    let mut fm = manager_with_tree();
    assert_eq!(fm.file_is_trashed(&FileId::Inode(102)), Ok(false));
    assert_eq!(fm.move_file_to_trash(&FileId::Inode(102), true), Ok("id_c".to_string()));
    assert_eq!(child_names(&fm, TRASH_INODE), vec!["c.txt"]);
    assert_eq!(fm.file_is_trashed(&FileId::Inode(102)), Ok(true));
    assert_eq!(fm.move_file_to_trash(&FileId::Inode(200), false), Ok("id_d".to_string()));
    assert_eq!(fm.file_is_trashed(&FileId::Inode(200)), Ok(false));
    assert_eq!(fm.file_is_trashed(&FileId::Inode(999)), Err(FsError::NotFound));
}

#[test]
fn trash_needs_the_trash_dir() {
    let mut fm = FileManager::new_for_testing(false);
    fm.add_test_file(plain_file("f", 10, Some("idf")), 1).unwrap();
    assert_eq!(fm.move_file_to_trash(&FileId::Inode(10), true), Err(FsError::TrashNotFound));
}

#[test]
fn rename_with_numbering_updates_the_name() {
    let mut fm = FileManager::new_for_testing(true);
    fm.add_test_file(dir_file("dir", 50, "id_dir"), 1).unwrap();
    fm.add_test_file(plain_file("x.txt", 51, Some("id_x")), 50).unwrap();
    fm.add_test_file(plain_file("y.txt", 52, Some("id_y")), 1).unwrap();
    let r = fm.rename(&FileId::Inode(52), 50, "x.txt".to_string());
    assert_eq!(r, Ok(("id_y".to_string(), "id_dir".to_string())));
    assert_eq!(child_names(&fm, 50), vec!["x.txt", "x.txt.1"]);
}

#[test]
fn rename_into_a_directory_without_that_name_gives_no_suffix() {
    let mut fm = FileManager::new_for_testing(true);
    fm.add_test_file(dir_file("a", 50, "id_a"), 1).unwrap();
    fm.add_test_file(dir_file("b", 60, "id_b"), 1).unwrap();
    fm.add_test_file(plain_file("n", 51, Some("id_n")), 50).unwrap();
    assert_eq!(fm.rename(&FileId::Inode(51), 60, "n".to_string()), Ok(("id_n".to_string(), "id_b".to_string())));
    assert_eq!(fm.get_file(&FileId::Inode(51)).unwrap().identical_name_id, None);
    assert_eq!(fm.get_inode(&FileId::ParentAndName { parent: 60, name: "n".to_string() }), Some(51));
    // Renaming in place does not count the file itself either.
    assert_eq!(fm.rename(&FileId::Inode(51), 60, "m".to_string()), Ok(("id_n".to_string(), "id_b".to_string())));
    assert_eq!(child_names(&fm, 60), vec!["m"]);
}

#[test]
fn rename_without_numbering_sets_the_name() {
    let mut fm = FileManager::new_for_testing(false);
    fm.add_test_file(dir_file("dir", 50, "id_dir"), 1).unwrap();
    fm.add_test_file(plain_file("y.txt", 52, Some("id_y")), 1).unwrap();
    let r = fm.rename(&FileId::Inode(52), 50, "z.txt".to_string());
    assert_eq!(r, Ok(("id_y".to_string(), "id_dir".to_string())));
    assert_eq!(child_names(&fm, 50), vec!["z.txt"]);
    assert_eq!(fm.get_inode(&FileId::ParentAndName { parent: 50, name: "z.txt".to_string() }), Some(52));
}

#[test]
fn rename_under_a_parent_without_drive_id_fails_after_moving() {
    let mut fm = FileManager::new_for_testing(false);
    let mut local = dir_file("local", 60, "x");
    local.drive_file = None;
    fm.add_test_file(local, 1).unwrap();
    fm.add_test_file(plain_file("f", 61, Some("id_f")), 1).unwrap();
    assert_eq!(fm.rename(&FileId::Inode(61), 60, "f".to_string()), Err(FsError::NoDriveId));
    assert_eq!(child_names(&fm, 60), vec!["f"]);
}

#[test]
fn create_file_sets_the_drive_id() {
    let mut fm = FileManager::new_for_testing(false);
    let ino = fm.next_available_inode();
    let f = plain_file("new", ino, None);
    assert_eq!(fm.create_file(f, "fresh".to_string(), Some(FileId::Inode(1))), Ok(()));
    assert_eq!(fm.get_inode(&FileId::DriveId("fresh".to_string())), Some(ino));
    assert_eq!(fm.flush(&FileId::Inode(ino)), Ok("fresh".to_string()));
    assert_eq!(fm.write(&FileId::Inode(ino)), "fresh".to_string());
    assert_eq!(fm.flush(&FileId::Inode(999)), Err(FsError::NoDriveId));
}

#[test]
fn a_test_file_above_the_last_inode_raises_it() {
    let mut fm = FileManager::new_for_testing(false);
    fm.add_test_file(plain_file("f", 100, Some("id_f")), 1).unwrap();
    assert_eq!(fm.last_inode(), 100);
    assert_eq!(fm.next_available_inode(), 101);
    fm.add_test_file(plain_file("g", 50, Some("id_g")), 1).unwrap();
    assert_eq!(fm.last_inode(), 101);
}

#[test]
fn inodes_and_handles_increase() {
    let mut fm = FileManager::new_for_testing(false);
    let a = fm.next_available_inode();
    let b = fm.next_available_inode();
    assert_eq!(a, 3);
    assert_eq!(b, 4);
    assert_eq!(fm.next_available_fh(), 1);
    assert_eq!(fm.next_available_fh(), 2);
}

#[test]
fn recalculation_is_off_without_numbering() {
    let mut fm = FileManager::new_for_testing(false);
    let mut f = plain_file("s", 10, Some("b"));
    f.identical_name_id = Some(5);
    fm.add_test_file(f, 1).unwrap();
    fm.recalculate_duplicate_suffixes_for_parent(1);
    fm.recalculate_all_duplicate_suffixes();
    assert_eq!(fm.get_file(&FileId::Inode(10)).unwrap().identical_name_id, Some(5));
}

#[test]
fn suffixes_of_same_named_siblings_are_distinct() {
    let mut fm = FileManager::new_for_testing(true);
    for (i, id) in ["q", "b", "b", "a"].iter().enumerate() {
        fm.add_test_file(plain_file("same", 10 + i as u64, Some(id)), 1).unwrap();
    }
    fm.add_test_file(plain_file("other", 20, Some("a")), 1).unwrap();
    fm.recalculate_all_duplicate_suffixes();
    let ids: Vec<Option<usize>> = (10..14).map(|i| fm.get_file(&FileId::Inode(i)).unwrap().identical_name_id).collect();
    assert_eq!(ids, vec![Some(3), Some(1), Some(2), None]);
    assert_eq!(fm.get_file(&FileId::Inode(20)).unwrap().identical_name_id, None);
}

// ---------- populate and sync ----------

#[test]
fn with_drive_facade_populates_the_tree() {
    let files = vec![
        folder("Photos", "f1", Some("rootid")),
        drive_file("cat.jpg", "f2", Some("f1")),
        drive_file("shared.txt", "f3", Some("someone_else")),
    ];
    let trashed = vec![drive_file("old.txt", "t1", Some("rootid"))];
    let fm = FileManager::with_drive_facade(false, false, false, 10, 0, Some("rootid".to_string()), files, trashed)
        .unwrap();
    assert_eq!(child_names(&fm, 1), vec!["Shared with me", "Photos", "Trash"]);
    assert_eq!(child_names(&fm, 3), vec!["shared.txt"]);
    let photos = fm.get_inode(&FileId::DriveId("f1".to_string())).unwrap();
    assert_eq!(child_names(&fm, photos), vec!["cat.jpg"]);
    assert_eq!(child_names(&fm, TRASH_INODE), vec!["old.txt"]);
    assert_eq!(fm.get_drive_id(&FileId::Inode(1)), Some("rootid".to_string()));
}

#[test]
fn with_drive_facade_needs_the_root_id() {
    let r = FileManager::with_drive_facade(false, false, false, 10, 0, None, vec![], vec![]);
    assert_eq!(r.err(), Some(FsError::NoRootId));
}

fn change(id: &str, file: Option<DriveFile>, removed: Option<bool>) -> Change {
    Change { file_id: Some(id.to_string()), file, removed }
}

#[test]
fn sync_applies_changes() {
    let files = vec![folder("Docs", "docs", Some("rootid")), drive_file("a.txt", "a", Some("docs"))];
    let mut fm =
        FileManager::with_drive_facade(false, false, false, 10, 100, Some("rootid".to_string()), files, vec![]).unwrap();
    assert!(!fm.sync_is_due(105));
    assert_eq!(fm.sync(105, &vec![]), Err(FsError::SyncTooSoon));
    assert!(fm.sync_is_due(110));
    let mut trashed = drive_file("a.txt", "a", Some("docs"));
    trashed.trashed = Some(true);
    let changes = vec![
        change("b", Some(drive_file("b.txt", "b", Some("docs"))), None),
        change("a", Some(trashed), None),
        change("docs", Some(folder("Documents", "docs", Some("rootid"))), None),
        Change { file_id: Some("x".to_string()), file: None, removed: Some(true) },
    ];
    assert_eq!(fm.sync(110, &changes), Ok(()));
    assert_eq!(fm.last_sync(), 110);
    let docs = fm.get_inode(&FileId::DriveId("docs".to_string())).unwrap();
    assert_eq!(child_names(&fm, docs), vec!["b.txt"]);
    assert_eq!(child_names(&fm, TRASH_INODE), vec!["a.txt"]);
    assert_eq!(fm.get_file(&FileId::Inode(docs)).unwrap().name, "Documents");
    let removal = vec![change("b", Some(drive_file("b.txt", "b", Some("docs"))), Some(true))];
    assert_eq!(fm.sync(200, &removal), Ok(()));
    assert!(!fm.contains(&FileId::DriveId("b".to_string())));
}

#[test]
fn a_new_file_whose_parent_is_unknown_cannot_be_applied() {
    let fm =
        FileManager::with_drive_facade(false, false, false, 0, 0, Some("rootid".to_string()), vec![], vec![]).unwrap();
    assert!(!fm.change_applicable(&change("n1", Some(drive_file("n1", "n1", Some("unknown"))), None)));
    assert!(fm.change_applicable(&change("n2", Some(drive_file("n2", "n2", Some("rootid"))), None)));
    // A new file that is trashed must carry the Drive id that the change names.
    let mut other = drive_file("n3", "elsewhere", Some("rootid"));
    other.trashed = Some(true);
    assert!(!fm.change_applicable(&change("n3", Some(other), None)));
}

#[test]
fn change_applicable_asks_for_metadata_only_where_a_file_is_rebuilt() {
    let files = vec![drive_file("a.txt", "a", Some("rootid"))];
    let fm =
        FileManager::with_drive_facade(false, false, false, 0, 0, Some("rootid".to_string()), files, vec![]).unwrap();
    let mut bare = DriveFile::empty();
    bare.trashed = Some(true);
    // A known file that is trashed needs neither a name nor a parent.
    assert!(fm.change_applicable(&change("a", Some(bare.clone()), None)));
    // A known file that is rebuilt needs both.
    let mut unnamed = DriveFile::empty();
    unnamed.parents = Some(vec!["rootid".to_string()]);
    assert!(!fm.change_applicable(&change("a", Some(unnamed.clone()), None)));
    // A new file needs both, even when it is trashed.
    assert!(!fm.change_applicable(&change("new", Some(bare), None)));
    assert!(fm.change_applicable(&change("new", Some(drive_file("n", "new", Some("rootid"))), None)));
    // A change that carries a file must name it.
    let nameless = Change { file_id: None, file: Some(drive_file("n", "n", Some("rootid"))), removed: None };
    assert!(!fm.change_applicable(&nameless));
    // A change without a file is always applicable.
    assert!(fm.change_applicable(&Change { file_id: None, file: None, removed: Some(true) }));
}

#[test]
fn sync_trashes_a_known_file_whose_change_carries_no_parent() {
    let files = vec![drive_file("a.txt", "a", Some("rootid"))];
    let mut fm =
        FileManager::with_drive_facade(false, false, false, 0, 0, Some("rootid".to_string()), files, vec![]).unwrap();
    let mut bare = DriveFile::empty();
    bare.trashed = Some(true);
    assert_eq!(fm.sync(5, &vec![change("a", Some(bare), None)]), Ok(()));
    assert_eq!(child_names(&fm, TRASH_INODE), vec!["a.txt"]);
    assert_eq!(fm.last_sync(), 5);
}

#[test]
fn sync_deletes_a_file_removed_without_metadata() {
    let files = vec![folder("Docs", "docs", Some("rootid")), drive_file("a.txt", "a", Some("docs"))];
    let mut fm =
        FileManager::with_drive_facade(false, false, false, 0, 0, Some("rootid".to_string()), files, vec![]).unwrap();
    let removal = vec![Change { file_id: Some("docs".to_string()), file: None, removed: Some(true) }];
    assert_eq!(fm.sync(1, &removal), Ok(()));
    assert!(!fm.contains(&FileId::DriveId("docs".to_string())));
    assert!(!fm.contains(&FileId::DriveId("a".to_string())));
}

// ---------- FUSE decisions ----------

#[test]
fn statfs_numbers() {
    let s = statfs_values(1000, 5000, 3);
    assert_eq!(s.blocks, 10);
    assert_eq!(s.bfree, 7);
    assert_eq!(s.bavail, 7);
    assert_eq!(s.files, u64::MAX);
    assert_eq!(s.ffree, u64::MAX - 3);
    assert_eq!(s.bsize, 512);
    assert_eq!(s.namelen, 1024);
    assert_eq!(statfs_values(0, 1024, 0).blocks, 2);
    assert_eq!(capacity_or_unlimited(None), i64::MAX as u64);
    assert_eq!(capacity_or_unlimited(Some(7)), 7);
}

#[test]
fn setattr_merges_requested_attributes() {
    let mut fm = manager_with_tree();
    let now = Timestamp { secs: 99, nanos: 0 };
    let req = SetAttrRequest {
        size: Some(4),
        atime: Some(TimeOrNow::Now),
        mtime: Some(TimeOrNow::SpecificTime(Timestamp { secs: 7, nanos: 0 })),
        ctime: None,
        crtime: None,
        uid: Some(12),
        gid: None,
        flags: None,
    };
    let a = fm.setattr(102, req, now).unwrap();
    assert_eq!(a.size, 4);
    assert_eq!(a.atime, now);
    assert_eq!(a.mtime, Timestamp { secs: 7, nanos: 0 });
    assert_eq!(a.uid, 12);
    assert_eq!(a.gid, 0);
    assert_eq!(fm.getattr(102), Some(a));
    assert_eq!(fm.setattr(999, req, now), None);
    let untouched = merge_attr(a, SetAttrRequest {
        size: None, atime: None, mtime: None, ctime: None, crtime: None, uid: None, gid: None, flags: None,
    }, now);
    assert_eq!(untouched, a);
}

#[test]
fn write_records_the_new_size() {
    let mut fm = manager_with_tree();
    assert!(fm.record_write(102, 100, 28));
    assert_eq!(fm.getattr(102).unwrap().size, 128);
    assert!(!fm.record_write(999, 0, 1));
}

#[test]
fn open_and_opendir() {
    let mut fm = manager_with_tree();
    assert_eq!(fm.open(102), Some(1));
    assert_eq!(fm.open(999), None);
    assert_eq!(fm.opendir(100), Ok(2));
    assert_eq!(fm.opendir(102), Err(Errno::NotDir));
    assert_eq!(fm.opendir(999), Err(Errno::NoEntry));
}

#[test]
fn readdir_skips_to_the_offset() {
    let fm = manager_with_tree();
    let all = fm.readdir(1, 0).unwrap();
    let names: Vec<(String, i64)> = all.iter().map(|e| (e.name.clone(), e.offset)).collect();
    assert_eq!(names, vec![("Trash".to_string(), 1), ("a".to_string(), 2), ("d".to_string(), 3)]);
    let rest = fm.readdir(1, 2).unwrap();
    assert_eq!(rest.len(), 1);
    assert_eq!(rest[0].name, "d");
    assert_eq!(rest[0].offset, 3);
    assert_eq!(rest[0].ino, 200);
    assert_eq!(rest[0].kind, FileType::Directory);
    assert!(fm.readdir(1, 9).unwrap().is_empty());
    assert!(fm.readdir(999, 0).is_none());
}

#[test]
fn lookup_by_parent_and_name() {
    let fm = manager_with_tree();
    assert_eq!(fm.lookup(101, &"c.txt".to_string()).unwrap().ino, 102);
    assert!(fm.lookup(101, &"nope".to_string()).is_none());
}

#[test]
fn unlink_trashes_then_deletes() {
    let mut fm = manager_with_tree();
    match fm.unlink(101, &"c.txt".to_string()) {
        Ok(DriveAction::MoveToTrash(d)) => assert_eq!(d, "id_c"),
        other => panic!("unexpected {:?}", other),
    }
    match fm.unlink(TRASH_INODE, &"c.txt".to_string()) {
        Ok(DriveAction::DeletePermanently(d)) => assert_eq!(d, "id_c"),
        other => panic!("unexpected {:?}", other),
    }
    assert!(!fm.contains(&FileId::Inode(102)));
    assert_eq!(fm.unlink(1, &"nothing".to_string()).err(), Some(Errno::NoEntry));
}

#[test]
fn unlink_skips_the_trash_when_configured() {
    let mut fm = FileManager::with_drive_facade(false, false, true, 0, 0, Some("r".to_string()),
        vec![drive_file("f", "idf", Some("r"))], vec![]).unwrap();
    match fm.unlink(1, &"f".to_string()) {
        Ok(DriveAction::DeletePermanently(d)) => assert_eq!(d, "idf"),
        other => panic!("unexpected {:?}", other),
    }
}

#[test]
fn mkdir_and_create_prepare_new_files() {
    let mut fm = manager_with_tree();
    let now = Timestamp { secs: 3, nanos: 0 };
    let d = fm.prepare_new_file(100, &"new_dir".to_string(), true, now, 5, 6).unwrap();
    assert_eq!(d.attr.kind, FileType::Directory);
    assert_eq!(d.attr.perm, 0o644);
    assert_eq!(d.attr.uid, 0);
    assert_eq!(d.mime_type(), Some("application/vnd.google-apps.folder".to_string()));
    assert_eq!(d.drive_parent(), Some("id_a".to_string()));
    let f = fm.prepare_new_file(100, &"new.txt".to_string(), false, now, 5, 6).unwrap();
    assert_eq!(f.attr.kind, FileType::RegularFile);
    assert_eq!(f.attr.blocks, 123);
    assert_eq!(f.attr.uid, 5);
    assert_eq!(f.attr.ino, d.attr.ino + 1);
    assert_eq!(f.mime_type(), None);
    assert_eq!(fm.prepare_new_file(999, &"x".to_string(), true, now, 0, 0).err(), Some(Errno::NotDir));
    assert_eq!(fm.prepare_new_file(100, &"b".to_string(), true, now, 0, 0).err(), Some(Errno::NotDir));
}

#[test]
fn a_created_file_is_found_by_its_name() {
    let mut fm = manager_with_tree();
    let now = Timestamp { secs: 3, nanos: 0 };
    let f = fm.prepare_new_file(100, &"fresh.txt".to_string(), false, now, 1, 1).unwrap();
    let ino = f.attr.ino;
    assert_eq!(fm.create_file(f, "id_fresh".to_string(), Some(FileId::Inode(100))), Ok(()));
    assert_eq!(fm.lookup(100, &"fresh.txt".to_string()).unwrap().ino, ino);
    assert_eq!(fm.get_drive_id(&FileId::Inode(ino)), Some("id_fresh".to_string()));
}

#[test]
fn a_created_file_is_found_by_its_name_with_numbering_on() {
    let mut fm = FileManager::new_for_testing(true);
    fm.add_test_file(dir_file("dir", 50, "id_dir"), 1).unwrap();
    fm.add_test_file(plain_file("other", 51, Some("id_o")), 50).unwrap();
    let f = fm.prepare_new_file(50, &"fresh".to_string(), false, Timestamp::epoch(), 0, 0).unwrap();
    let ino = f.attr.ino;
    assert_eq!(fm.create_file(f, "id_fresh".to_string(), Some(FileId::Inode(50))), Ok(()));
    assert_eq!(fm.lookup(50, &"fresh".to_string()).unwrap().ino, ino);
    assert_eq!(fm.get_file(&FileId::Inode(ino)).unwrap().identical_name_id, None);
}

#[test]
fn a_trashed_file_sits_under_the_trash() {
    let mut fm = manager_with_tree();
    assert_eq!(fm.move_file_to_trash(&FileId::Inode(101), false), Ok("id_b".to_string()));
    assert_eq!(child_names(&fm, TRASH_INODE), vec!["b"]);
    assert_eq!(child_names(&fm, 100), Vec::<String>::new());
    assert_eq!(fm.lookup(TRASH_INODE, &"b".to_string()).unwrap().ino, 101);
    // Its descendants come along.
    assert_eq!(child_names(&fm, 101), vec!["c.txt"]);
}

#[test]
fn fuse_rename_into_trash_renames_in_place_then_trashes() {
    let mut fm = FileManager::new_for_testing(true);
    fm.add_test_file(dir_file("Trash", TRASH_INODE, "trash_id"), 1).unwrap();
    fm.add_test_file(plain_file("f", 30, Some("idf")), 1).unwrap();
    let (r1, r2) = fm.fuse_rename(1, &"f".to_string(), TRASH_INODE, "g".to_string());
    assert_eq!(r1, Ok(("idf".to_string(), "root".to_string())));
    assert_eq!(r2, Some(Ok("idf".to_string())));
    assert_eq!(child_names(&fm, TRASH_INODE), vec!["g"]);
    let (r3, r4) = fm.fuse_rename(1, &"missing".to_string(), 1, "h".to_string());
    assert_eq!(r3, Err(FsError::NotFound));
    assert_eq!(r4, None);
}

// ---------- fetchers ----------

#[test]
fn in_memory_fetcher_reads_back_writes() {
    let mut f = InMemoryFetcher::new();
    assert_eq!(f.read(1, 0, 4), None);
    f.write(1, 0, b"hello world");
    assert_eq!(f.read(1, 0, 5), Some(&b"hello"[..]));
    assert_eq!(f.read(1, 6, 100), Some(&b"world"[..]));
    f.write(1, 3, b"P");
    assert_eq!(f.read(1, 0, 100), Some(&b"helP"[..]));
    f.write(2, 2, b"ab");
    assert_eq!(f.read(2, 0, 10), Some(&[0u8, 0, b'a', b'b'][..]));
    f.remove(1);
    assert_eq!(f.read(1, 0, 1), None);
    assert_eq!(f.read(2, 2, 2), Some(&b"ab"[..]));
}

#[test]
fn google_drive_fetcher_reads_nothing() {
    let mut f = GoogleDriveFetcher::new();
    f.write(1, 0, b"x");
    assert_eq!(f.read(1, 0, 1), None);
    f.remove(1);
}

// ---------- config ----------

#[test]
fn config_defaults() {
    let c = Config::default();
    assert!(!c.debug());
    assert!(c.mount_check());
    assert_eq!(c.cache_max_seconds(), 10);
    assert_eq!(c.cache_max_items(), 10);
    assert_eq!(c.cache_statfs_seconds(), 100);
    assert_eq!(c.sync_interval(), 10);
    assert!(c.mount_options().is_empty());
    assert!(c.authorize_using_code());
    assert!(!c.rename_identical_files());
    assert!(!c.add_extensions_to_special_files());
    assert!(!c.skip_trash());
    assert_eq!(c.auth_port(), 8081);
}

#[test]
fn config_values_and_token_file() {
    let mut c = Config::default();
    c.debug = Some(true);
    c.sync_interval = Some(60);
    c.mount_options = Some(vec!["fsname=GCSF".to_string(), "allow_root".to_string()]);
    c.config_dir = Some("/home/u/.config/gcsf".to_string());
    c.session_name = Some("work".to_string());
    c.client_secret = Some("secret".to_string());
    c.auth_port = Some(9000);
    assert!(c.debug());
    assert_eq!(c.sync_interval(), 60);
    assert_eq!(c.mount_options(), vec!["fsname=GCSF".to_string(), "allow_root".to_string()]);
    assert_eq!(c.token_file(), "/home/u/.config/gcsf/work");
    assert_eq!(c.session_name(), "work");
    assert_eq!(c.config_dir(), "/home/u/.config/gcsf");
    assert_eq!(c.client_secret(), "secret");
    assert_eq!(c.auth_port(), 9000);
    c.config_dir = Some("/tmp/".to_string());
    assert_eq!(c.token_file(), "/tmp/work");
    c.session_name = Some("/abs".to_string());
    assert_eq!(c.token_file(), "/abs");
}

// ---------- auth ----------

#[test]
fn code_from_request_line() {
    assert_eq!(
        extract_code_from_request("GET /?code=4/abc&scope=drive HTTP/1.1"),
        Some("4/abc".to_string())
    );
    assert_eq!(extract_code_from_request("GET /?state=1 HTTP/1.1"), None);
    assert_eq!(extract_code_from_request("GET"), None);
    assert_eq!(extract_code_from_request(""), None);
}

#[test]
fn code_from_url_decodes_the_value() {
    assert_eq!(
        extract_code_from_url("http://127.0.0.1:8081/?scope=x&code=a%2Fb+c"),
        Some("a/b c".to_string())
    );
    assert_eq!(extract_code_from_url("not a url"), None);
    assert_eq!(extract_code_from_url("http://localhost/?code=first&code=second"), Some("first".to_string()));
}

#[test]
fn whitespace_splitting() {
    assert_eq!(split_whitespace("  GET  /x \t HTTP/1.1\r\n"), vec!["GET", "/x", "HTTP/1.1"]);
    assert!(split_whitespace("   ").is_empty());
}

#[test]
fn authorization_url() {
    assert_eq!(redirect_uri(8081), "http://127.0.0.1:8081");
    assert_eq!(
        auth_url("my id.apps", 8081),
        "https://accounts.google.com/o/oauth2/auth?client_id=my%20id.apps&redirect_uri=http%3A%2F%2F127.0.0.1%3A8081&response_type=code&scope=https://www.googleapis.com/auth/drive&access_type=offline&prompt=consent"
    );
    assert_eq!(token_lifetime(None), 3600);
    assert_eq!(token_lifetime(Some(10)), 10);
}
