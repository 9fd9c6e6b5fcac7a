use doc_manager::codec::placeholder_png;
use doc_manager::fs_state::FsState;
use doc_manager::store::MetaStore;
use doc_manager::sync::create_attachment_commit;
use doc_manager::attachment_page::AttachmentPage;
use doc_manager::data_card::DataCard;
use doc_manager::config::Config;
use doc_manager::config::LocalTheme;
use doc_manager::main_menu::MainMenu;

#[test]
fn read_is_a_three_level_eager_fetch() {
    let mut store = MetaStore::new();
    let mut fs = FsState::new();
    let d = store
        .create_document("D-1".to_string(), "letter".to_string(), "note".to_string(), 5)
        .unwrap();
    create_attachment_commit(
        &mut store,
        &mut fs,
        d,
        "A-1".to_string(),
        "first".to_string(),
        vec![placeholder_png(), placeholder_png()],
        6,
    )
    .unwrap();

    let docs = store.read_document_table(&fs);
    assert_eq!(docs.len(), 1);
    let doc = &docs[0];
    assert_eq!(doc.get_document_number(), "D-1");
    assert_eq!(doc.get_document_type(), "letter");
    assert_eq!(doc.get_date_added(), 5);
    let atts = doc.get_attachments().as_ref().expect("eager fetch");
    assert_eq!(atts.len(), 1);
    let att = &atts[0];
    assert_eq!(att.get_reference_number(), "A-1");
    assert_eq!(att.get_document_id(), d);
    assert_eq!(att.pages().len(), 2);
    assert_eq!(att.page(0).file_path(), "./data/D-1/A-1/D-1_A-1_1.png");
    assert!(!att.page(0).image().is_empty());
}

#[test]
fn a_missing_page_file_reads_as_an_empty_image() {
    let mut store = MetaStore::new();
    let fs = FsState::new();
    let d = store
        .create_document("D-1".to_string(), "".to_string(), "".to_string(), 0)
        .unwrap();
    store
        .create_attachment("A-1".to_string(), "".to_string(), d, vec!["ghost".to_string()], 0)
        .unwrap();
    let docs = store.read_document_table(&fs);
    let atts = docs[0].get_attachments().as_ref().unwrap();
    assert_eq!(atts[0].pages().len(), 1);
    assert!(atts[0].page(0).image().is_empty());
}

#[test]
fn page_entity_reports_its_parts() {
    let p = AttachmentPage::new(3, "somewhere".to_string(), 9, Some(vec![1, 2]));
    assert_eq!(p.image(), &vec![1u8, 2u8]);
    assert_eq!(p.file_path(), "somewhere");
    let q = AttachmentPage::new(4, "gone".to_string(), 9, None);
    assert!(q.image().is_empty());
}

#[test]
fn cards_hold_their_payload() {
    let mut store = MetaStore::new();
    let fs = FsState::new();
    store
        .create_document("D-1".to_string(), "".to_string(), "".to_string(), 0)
        .unwrap();
    let docs = store.read_document_table(&fs);
    let card = DataCard::new(Some(docs.into_iter().next().unwrap()), None, LocalTheme::Dark);
    assert_eq!(card.get_document().get_document_number(), "D-1");
    assert_eq!(card.theme, LocalTheme::Dark);
    let _menu = MainMenu::new();
}

#[test]
fn config_hands_out_its_theme() {
    let mut c = Config::default();
    assert_eq!(c.current_theme(), LocalTheme::CatppuccinMacchiato);
    c.change_theme(LocalTheme::Nord);
    assert_eq!(c.current_theme(), LocalTheme::Nord);
}
