use doc_manager::store::MetaStore;
use doc_manager::store::StoreError;

#[test]
fn create_document_assigns_fresh_ids() {
    let mut s = MetaStore::new();
    let a = s.create_document("D-1".to_string(), "invoice".to_string(), "".to_string(), 7).unwrap();
    let b = s.create_document("D-2".to_string(), "".to_string(), "".to_string(), 8).unwrap();
    assert_eq!(a, 1);
    assert_eq!(b, 2);
    assert_eq!(s.documents.len(), 2);
    assert_eq!(s.documents[0].document_number, "D-1");
    assert_eq!(s.documents[0].date_added, 7);
}

#[test]
fn duplicate_document_number_is_refused() {
    let mut s = MetaStore::new();
    s.create_document("D-1".to_string(), "".to_string(), "".to_string(), 0).unwrap();
    let r = s.create_document("D-1".to_string(), "".to_string(), "".to_string(), 1);
    assert_eq!(r, Err(StoreError::DuplicateIdentifier));
    assert_eq!(s.documents.len(), 1);
}

#[test]
fn empty_document_number_is_a_validation_fault() {
    let mut s = MetaStore::new();
    let r = s.create_document("".to_string(), "".to_string(), "".to_string(), 0);
    assert_eq!(r, Err(StoreError::EmptyRequiredField));
    assert_eq!(s.documents.len(), 0);
}

#[test]
fn create_attachment_inserts_page_rows_in_order() {
    let mut s = MetaStore::new();
    let d = s.create_document("D-1".to_string(), "".to_string(), "".to_string(), 0).unwrap();
    let paths = vec!["p1".to_string(), "p2".to_string(), "p3".to_string()];
    let a = s.create_attachment("A-1".to_string(), "".to_string(), d, paths, 0).unwrap();
    assert_eq!(a, 1);
    assert_eq!(s.pages.len(), 3);
    assert_eq!(s.pages[0].file_path, "p1");
    assert_eq!(s.pages[1].file_path, "p2");
    assert_eq!(s.pages[2].file_path, "p3");
    assert!(s.pages.iter().all(|p| p.attachment_id == a));
    assert_eq!(s.pages[0].page_id, 1);
    assert_eq!(s.pages[1].page_id, 2);
}

#[test]
fn duplicate_reference_number_is_refused() {
    let mut s = MetaStore::new();
    let d = s.create_document("D-1".to_string(), "".to_string(), "".to_string(), 0).unwrap();
    s.create_attachment("A-1".to_string(), "".to_string(), d, vec![], 0).unwrap();
    let r = s.create_attachment("A-1".to_string(), "".to_string(), d, vec![], 0);
    assert_eq!(r, Err(StoreError::DuplicateIdentifier));
}

#[test]
fn create_attachment_needs_an_existing_document() {
    let mut s = MetaStore::new();
    let r = s.create_attachment("A-1".to_string(), "".to_string(), 9, vec![], 0);
    assert_eq!(r, Err(StoreError::NotFound));
}

#[test]
fn replace_attachment_pages_is_a_single_swap() {
    let mut s = MetaStore::new();
    let d = s.create_document("D-1".to_string(), "".to_string(), "".to_string(), 0).unwrap();
    let a = s.create_attachment(
        "A-1".to_string(),
        "".to_string(),
        d,
        vec!["p1".to_string(), "p2".to_string(), "p3".to_string()],
        0,
    )
    .unwrap();
    s.replace_attachment_pages(a, vec!["q1".to_string(), "q2".to_string()]).unwrap();
    assert_eq!(s.pages.len(), 2);
    assert_eq!(s.pages[0].file_path, "q1");
    assert_eq!(s.pages[1].file_path, "q2");
}

#[test]
fn update_document_details_keeps_id_and_timestamp() {
    let mut s = MetaStore::new();
    let d = s.create_document("D-1".to_string(), "t".to_string(), "c".to_string(), 42).unwrap();
    s.update_document_details(d, "D-9".to_string(), "u".to_string(), "k".to_string()).unwrap();
    assert_eq!(s.documents[0].document_id, d);
    assert_eq!(s.documents[0].document_number, "D-9");
    assert_eq!(s.documents[0].date_added, 42);
}

#[test]
fn delete_document_cascades_to_attachments_and_pages() {
    let mut s = MetaStore::new();
    let d1 = s.create_document("D-1".to_string(), "".to_string(), "".to_string(), 0).unwrap();
    let d2 = s.create_document("D-2".to_string(), "".to_string(), "".to_string(), 0).unwrap();
    s.create_attachment("A-1".to_string(), "".to_string(), d1, vec!["x".to_string()], 0).unwrap();
    s.create_attachment("A-2".to_string(), "".to_string(), d2, vec!["y".to_string()], 0).unwrap();
    s.delete_document(d1).unwrap();
    assert_eq!(s.documents.len(), 1);
    assert_eq!(s.attachments.len(), 1);
    assert_eq!(s.pages.len(), 1);
    assert_eq!(s.pages[0].file_path, "y");
}

#[test]
fn exhausted_id_space_is_reported() {
    let mut s = MetaStore::new();
    let d = s.create_document("D-1".to_string(), "".to_string(), "".to_string(), 0).unwrap();
    s.next_page_id = u32::MAX - 1;
    let r = s.create_attachment(
        "A-1".to_string(),
        "".to_string(),
        d,
        vec!["p1".to_string(), "p2".to_string()],
        0,
    );
    assert_eq!(r, Err(StoreError::IdSpaceExhausted));
    s.next_document_id = u32::MAX;
    let r2 = s.create_document("D-2".to_string(), "".to_string(), "".to_string(), 0);
    assert_eq!(r2, Err(StoreError::IdSpaceExhausted));
}
