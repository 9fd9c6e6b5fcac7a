use doc_manager::page_path::attachment_dir;
use doc_manager::page_path::document_dir;
use doc_manager::page_path::is_valid_name;
use doc_manager::page_path::page_file_path;
use doc_manager::page_path::u32_to_string;

#[test]
fn decimal_rendering_exact_values() {
    assert_eq!(u32_to_string(0), "0");
    assert_eq!(u32_to_string(7), "7");
    assert_eq!(u32_to_string(10), "10");
    assert_eq!(u32_to_string(9021), "9021");
    assert_eq!(u32_to_string(u32::MAX), "4294967295");
}

#[test]
fn canonical_paths_exact() {
    assert_eq!(document_dir("D-100"), "./data/D-100");
    assert_eq!(attachment_dir("D-100", "A-1"), "./data/D-100/A-1");
    assert_eq!(
        page_file_path("D-100", "A-1", 1),
        "./data/D-100/A-1/D-100_A-1_1.png"
    );
    assert_eq!(
        page_file_path("D-100", "A-1", 2),
        "./data/D-100/A-1/D-100_A-1_2.png"
    );
}

#[test]
fn page_path_deterministic_and_injective_in_index() {
    let a = page_file_path("D", "R", 12);
    let b = page_file_path("D", "R", 12);
    assert_eq!(a, b);
    for i in 1..30u32 {
        for j in (i + 1)..30u32 {
            assert_ne!(page_file_path("D", "R", i), page_file_path("D", "R", j));
        }
    }
}

#[test]
fn name_validation() {
    assert!(is_valid_name("D-100"));
    assert!(is_valid_name("A_1"));
    assert!(!is_valid_name(""));
    assert!(!is_valid_name("a/b"));
}
