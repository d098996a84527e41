use getcat::model::Ulid;
use getcat::store::layout::{
    data_dir, document_file, is_document, set_aside, DRAFTS_DIR, REQUESTS_DIR, SETTINGS_FILE,
    VARIABLES_FILE, WORKSPACE_FILE,
};

#[test]
fn each_document_has_a_file_of_its_own() {
    assert_eq!(document_file(Ulid(0)), "00000000000000000000000000.json");
    assert_eq!(
        document_file(Ulid(u128::MAX)),
        "7ZZZZZZZZZZZZZZZZZZZZZZZZZ.json"
    );
    assert_eq!(
        document_file(Ulid(0x0123_4567_89ab_cdef)),
        "0000000000000028T5CY4TQKFF.json"
    );
    assert_ne!(document_file(Ulid(1)), document_file(Ulid(32)));
    for file in [WORKSPACE_FILE, SETTINGS_FILE, VARIABLES_FILE] {
        assert!(is_document(file));
    }
    assert_ne!(DRAFTS_DIR, REQUESTS_DIR);
}

#[test]
fn a_damaged_file_is_set_aside() {
    let aside = set_aside(&document_file(Ulid(7)), 1_700_000_000);
    assert!(aside.ends_with(".json.corrupt-1700000000"), "{aside}");
    assert!(!is_document(&aside));
    assert!(is_document(".json"));
    assert!(!is_document("json"));
    assert!(!is_document("a.jsonx"));
}

#[test]
fn the_data_directory_follows_the_platform() {
    let home = Some("/home/u");
    assert_eq!(
        data_dir("macos", home, None, None).as_deref(),
        Some("/home/u/Library/Application Support/GetCat")
    );
    assert_eq!(
        data_dir("linux", home, None, None).as_deref(),
        Some("/home/u/.local/share/getcat")
    );
    assert_eq!(
        data_dir("linux", home, Some(""), None).as_deref(),
        Some("/home/u/.local/share/getcat")
    );
    assert_eq!(
        data_dir("linux", None, Some("/data"), None).as_deref(),
        Some("/data/getcat")
    );
    assert_eq!(
        data_dir("windows", home, None, Some("C:\\Users\\u\\AppData\\Roaming")).as_deref(),
        Some("C:\\Users\\u\\AppData\\Roaming\\GetCat\\data")
    );
    assert_eq!(data_dir("linux", None, None, None), None);
    assert_eq!(data_dir("windows", home, None, None), None);
}
