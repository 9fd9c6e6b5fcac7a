use doc_manager::codec::placeholder_png;
use doc_manager::fs_state::FsState;
use doc_manager::store::MetaStore;
use doc_manager::store::StoreError;
use doc_manager::sync::commit_attachment_details;
use doc_manager::sync::commit_document_details;
use doc_manager::sync::commit_attachment_pages;
use doc_manager::sync::create_attachment_commit;
use doc_manager::sync::delete_attachment_commit;
use doc_manager::sync::delete_document_commit;
use doc_manager::sync::EditSession;
use doc_manager::sync::EditState;
use doc_manager::sync::SyncError;

fn page() -> Vec<u8> {
    placeholder_png()
}

fn has_path(fs: &FsState, p: &str) -> bool {
    fs.files.iter().any(|f| f.path == p)
}

fn bytes_at(fs: &FsState, p: &str) -> Vec<u8> {
    fs.files
        .iter()
        .find(|f| f.path == p)
        .map(|f| f.bytes.clone())
        .expect("file missing")
}

fn has_dir(fs: &FsState, d: &str) -> bool {
    fs.dirs.iter().any(|x| x == d)
}

#[test]
fn create_then_rename_scenario() {
    let mut store = MetaStore::new();
    let mut fs = FsState::new();
    let d = store
        .create_document("D-100".to_string(), "".to_string(), "".to_string(), 0)
        .unwrap();
    let a = create_attachment_commit(
        &mut store,
        &mut fs,
        d,
        "A-1".to_string(),
        "".to_string(),
        vec![page(), page()],
        0,
    )
    .unwrap();

    assert_eq!(store.attachments.len(), 1);
    assert_eq!(store.pages.len(), 2);
    assert!(has_path(&fs, "./data/D-100/A-1/D-100_A-1_1.png"));
    assert!(has_path(&fs, "./data/D-100/A-1/D-100_A-1_2.png"));
    assert!(has_dir(&fs, "./data/D-100"));
    assert!(has_dir(&fs, "./data/D-100/A-1"));

    let b1 = bytes_at(&fs, "./data/D-100/A-1/D-100_A-1_1.png");
    let b2 = bytes_at(&fs, "./data/D-100/A-1/D-100_A-1_2.png");

    commit_attachment_details(&mut store, &mut fs, a, "A-2".to_string(), "".to_string())
        .unwrap();

    assert!(has_path(&fs, "./data/D-100/A-2/D-100_A-2_1.png"));
    assert!(has_path(&fs, "./data/D-100/A-2/D-100_A-2_2.png"));
    assert!(!has_path(&fs, "./data/D-100/A-1/D-100_A-1_1.png"));
    assert!(!has_dir(&fs, "./data/D-100/A-1"));
    assert!(has_dir(&fs, "./data/D-100/A-2"));
    assert_eq!(bytes_at(&fs, "./data/D-100/A-2/D-100_A-2_1.png"), b1);
    assert_eq!(bytes_at(&fs, "./data/D-100/A-2/D-100_A-2_2.png"), b2);

    assert_eq!(store.pages.len(), 2);
    assert_eq!(store.pages[0].file_path, "./data/D-100/A-2/D-100_A-2_1.png");
    assert_eq!(store.pages[1].file_path, "./data/D-100/A-2/D-100_A-2_2.png");
    assert_eq!(store.attachments[0].reference_number, "A-2");
}

#[test]
fn details_commit_twice_matches_once() {
    let mut store = MetaStore::new();
    let mut fs = FsState::new();
    let d = store
        .create_document("D-1".to_string(), "".to_string(), "".to_string(), 0)
        .unwrap();
    let a = create_attachment_commit(
        &mut store,
        &mut fs,
        d,
        "A-1".to_string(),
        "".to_string(),
        vec![page()],
        0,
    )
    .unwrap();

    commit_attachment_details(&mut store, &mut fs, a, "A-9".to_string(), "c".to_string())
        .unwrap();
    let docs_once = store.documents.len();
    let pages_once: Vec<(u32, String)> = store
        .pages
        .iter()
        .map(|p| (p.page_id, p.file_path.clone()))
        .collect();
    let files_once: Vec<(String, Vec<u8>)> = fs
        .files
        .iter()
        .map(|f| (f.path.clone(), f.bytes.clone()))
        .collect();
    let dirs_once: Vec<String> = fs.dirs.clone();

    commit_attachment_details(&mut store, &mut fs, a, "A-9".to_string(), "c".to_string())
        .unwrap();
    let pages_twice: Vec<(u32, String)> = store
        .pages
        .iter()
        .map(|p| (p.page_id, p.file_path.clone()))
        .collect();
    let files_twice: Vec<(String, Vec<u8>)> = fs
        .files
        .iter()
        .map(|f| (f.path.clone(), f.bytes.clone()))
        .collect();
    assert_eq!(store.documents.len(), docs_once);
    assert_eq!(pages_once, pages_twice);
    assert_eq!(files_once, files_twice);
    assert_eq!(dirs_once, fs.dirs);
    assert_eq!(store.attachments[0].reference_number, "A-9");
    assert_eq!(store.attachments[0].comment, "c");
}

#[test]
fn pages_commit_replaces_the_whole_set() {
    let mut store = MetaStore::new();
    let mut fs = FsState::new();
    let d = store
        .create_document("D-1".to_string(), "".to_string(), "".to_string(), 0)
        .unwrap();
    let a = create_attachment_commit(
        &mut store,
        &mut fs,
        d,
        "A-1".to_string(),
        "".to_string(),
        vec![page(), page(), page()],
        0,
    )
    .unwrap();
    assert_eq!(store.pages.len(), 3);

    commit_attachment_pages(
        &mut store,
        &mut fs,
        a,
        "A-2".to_string(),
        "".to_string(),
        vec![page(), page()],
    )
    .unwrap();

    assert_eq!(store.pages.len(), 2);
    assert_eq!(store.pages[0].file_path, "./data/D-1/A-2/D-1_A-2_1.png");
    assert_eq!(store.pages[1].file_path, "./data/D-1/A-2/D-1_A-2_2.png");
    assert!(!has_dir(&fs, "./data/D-1/A-1"));
    assert!(has_dir(&fs, "./data/D-1/A-2"));
    assert!(!has_path(&fs, "./data/D-1/A-1/D-1_A-1_1.png"));
    assert!(!has_path(&fs, "./data/D-1/A-1/D-1_A-1_3.png"));
    assert!(has_path(&fs, "./data/D-1/A-2/D-1_A-2_1.png"));
    assert!(has_path(&fs, "./data/D-1/A-2/D-1_A-2_2.png"));
}

#[test]
fn deleting_a_document_removes_all_rows_and_the_root_directory() {
    let mut store = MetaStore::new();
    let mut fs = FsState::new();
    let d = store
        .create_document("D-1".to_string(), "".to_string(), "".to_string(), 0)
        .unwrap();
    create_attachment_commit(
        &mut store,
        &mut fs,
        d,
        "A-1".to_string(),
        "".to_string(),
        vec![page(), page(), page()],
        0,
    )
    .unwrap();
    create_attachment_commit(
        &mut store,
        &mut fs,
        d,
        "A-2".to_string(),
        "".to_string(),
        vec![page()],
        0,
    )
    .unwrap();
    assert_eq!(store.pages.len(), 4);
    assert_eq!(store.attachments.len(), 2);

    delete_document_commit(&mut store, &mut fs, d).unwrap();
    assert_eq!(store.pages.len(), 0);
    assert_eq!(store.attachments.len(), 0);
    assert_eq!(store.documents.len(), 0);
    assert!(!has_dir(&fs, "./data/D-1"));
    assert!(!has_dir(&fs, "./data/D-1/A-1"));
    assert!(fs.files.is_empty());
}

#[test]
fn deleting_an_attachment_keeps_its_neighbours() {
    let mut store = MetaStore::new();
    let mut fs = FsState::new();
    let d = store
        .create_document("D-1".to_string(), "".to_string(), "".to_string(), 0)
        .unwrap();
    let a1 = create_attachment_commit(
        &mut store,
        &mut fs,
        d,
        "A-1".to_string(),
        "".to_string(),
        vec![page()],
        0,
    )
    .unwrap();
    create_attachment_commit(
        &mut store,
        &mut fs,
        d,
        "A-2".to_string(),
        "".to_string(),
        vec![page()],
        0,
    )
    .unwrap();
    delete_attachment_commit(&mut store, &mut fs, a1).unwrap();
    assert_eq!(store.attachments.len(), 1);
    assert_eq!(store.pages.len(), 1);
    assert!(!has_dir(&fs, "./data/D-1/A-1"));
    assert!(has_dir(&fs, "./data/D-1/A-2"));
    assert!(has_path(&fs, "./data/D-1/A-2/D-1_A-2_1.png"));
}

#[test]
fn commit_errors_leave_everything_untouched() {
    let mut store = MetaStore::new();
    let mut fs = FsState::new();
    let r = commit_attachment_details(&mut store, &mut fs, 1, "A".to_string(), "".to_string());
    assert_eq!(r, Err(SyncError::Store(StoreError::NotFound)));
    let d = store
        .create_document("D-1".to_string(), "".to_string(), "".to_string(), 0)
        .unwrap();
    let r2 = create_attachment_commit(
        &mut store,
        &mut fs,
        d,
        "A/1".to_string(),
        "".to_string(),
        vec![],
        0,
    );
    assert_eq!(r2, Err(SyncError::InvalidName));
    assert!(fs.files.is_empty());
    assert!(fs.dirs.is_empty());
}

#[test]
fn edit_session_page_change_is_one_way() {
    let mut s = EditSession::new();
    assert_eq!(s.state, EditState::Viewing);
    s.note_details_changed();
    assert_eq!(s.state, EditState::EditingDetails);
    s.note_pages_changed();
    assert_eq!(s.state, EditState::EditingPages);
    s.note_details_changed();
    assert_eq!(s.state, EditState::EditingPages);
}

#[test]
fn renaming_a_document_moves_every_attachment() {
    let mut store = MetaStore::new();
    let mut fs = FsState::new();
    let d = store
        .create_document("D-1".to_string(), "t".to_string(), "c".to_string(), 0)
        .unwrap();
    create_attachment_commit(
        &mut store,
        &mut fs,
        d,
        "A-1".to_string(),
        "".to_string(),
        vec![page(), page()],
        0,
    )
    .unwrap();
    create_attachment_commit(
        &mut store,
        &mut fs,
        d,
        "A-2".to_string(),
        "".to_string(),
        vec![page()],
        0,
    )
    .unwrap();
    let b = bytes_at(&fs, "./data/D-1/A-1/D-1_A-1_2.png");

    commit_document_details(
        &mut store,
        &mut fs,
        d,
        "D-9".to_string(),
        "t".to_string(),
        "c".to_string(),
    )
    .unwrap();

    assert_eq!(store.documents[0].document_number, "D-9");
    assert!(has_path(&fs, "./data/D-9/A-1/D-9_A-1_1.png"));
    assert!(has_path(&fs, "./data/D-9/A-1/D-9_A-1_2.png"));
    assert!(has_path(&fs, "./data/D-9/A-2/D-9_A-2_1.png"));
    assert_eq!(bytes_at(&fs, "./data/D-9/A-1/D-9_A-1_2.png"), b);
    assert!(!has_dir(&fs, "./data/D-1"));
    assert!(!has_dir(&fs, "./data/D-1/A-1"));
    assert!(!has_path(&fs, "./data/D-1/A-1/D-1_A-1_1.png"));
    assert!(has_dir(&fs, "./data/D-9"));
    assert_eq!(store.pages.len(), 3);
    assert!(store
        .pages
        .iter()
        .all(|p| p.file_path.starts_with("./data/D-9/")));
}

#[test]
fn editing_document_comment_touches_no_files() {
    let mut store = MetaStore::new();
    let mut fs = FsState::new();
    let d = store
        .create_document("D-1".to_string(), "t".to_string(), "c".to_string(), 0)
        .unwrap();
    create_attachment_commit(
        &mut store,
        &mut fs,
        d,
        "A-1".to_string(),
        "".to_string(),
        vec![page()],
        0,
    )
    .unwrap();
    let files_before: Vec<String> = fs.files.iter().map(|f| f.path.clone()).collect();
    let log_len = fs.log.len();
    commit_document_details(
        &mut store,
        &mut fs,
        d,
        "D-1".to_string(),
        "other".to_string(),
        "k".to_string(),
    )
    .unwrap();
    let files_after: Vec<String> = fs.files.iter().map(|f| f.path.clone()).collect();
    assert_eq!(files_before, files_after);
    assert_eq!(fs.log.len(), log_len);
    assert_eq!(store.documents[0].document_type, "other");
    assert_eq!(store.documents[0].comment, "k");
}
