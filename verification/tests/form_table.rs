use getcat::form_table::{FormTable, RowKind};
use getcat::model::{FormField, FormValue};

#[test]
fn kv_table_form_fields_roundtrip_and_refresh_size() {
    let file = "/tmp/doc.json";
    let fields = vec![
        FormField::text("note", "hi"),
        FormField {
            value: FormValue::File {
                path: file.into(),
                content_type: Some("text/csv".into()),
            },
            ..FormField::file("doc", "")
        },
        FormField {
            enabled: false,
            ..FormField::text("off", "")
        },
        FormField::file("avatar", ""),
    ];
    let mut t = FormTable::new();
    t.set_form_fields(&fields);
    assert_eq!(t.form_fields(), fields);
    assert_eq!(t.row_count(), 5);
    assert_eq!(t.row_file_size(1), None);
    t.row_file_measured(1, file, Some(2));
    assert_eq!(t.row_file_size(1), Some(2));
    assert_eq!(t.form_fields(), fields);
}

#[test]
fn kv_table_choose_row_file_sets_path_and_switching_back_drops_it() {
    let file = "/tmp/pic.png";
    let mut t = FormTable::new();
    t.set_form_fields(&vec![FormField::text("avatar", "")]);
    t.set_row_kind(0, RowKind::File);
    t.choose_row_file(0, Some(file));
    t.row_file_measured(0, file, Some(4));
    assert_eq!(
        t.form_fields()[0].value,
        FormValue::File {
            path: file.into(),
            content_type: None
        }
    );
    assert_eq!(t.row_file_size(0), Some(4));
    t.set_row_kind(0, RowKind::Text);
    let f = &t.form_fields()[0];
    assert_eq!(f.key, "avatar");
    assert_eq!(
        f.value,
        FormValue::Text {
            value: String::new()
        }
    );
    assert_eq!(t.row_file_size(0), None);
}

#[test]
fn kv_table_cancelled_row_file_dialog_keeps_row() {
    let mut t = FormTable::new();
    t.set_form_fields(&vec![FormField::file("doc", "")]);
    t.choose_row_file(0, None);
    assert_eq!(t.form_fields(), vec![FormField::file("doc", "")]);
}

#[test]
fn kv_table_choosing_file_on_trailing_row_appends_empty_row() {
    let file = "/tmp/trailing.txt";
    let mut t = FormTable::new();
    t.set_form_fields(&vec![]);
    assert_eq!(t.row_count(), 1);
    t.set_row_kind(0, RowKind::File);
    t.choose_row_file(0, Some(file));
    t.row_file_measured(0, file, Some(5));
    assert_eq!(t.row_count(), 2);
    assert_eq!(t.row_file_size(0), Some(5));
    assert_eq!(t.form_fields(), vec![FormField::file("", file)]);
}

#[test]
fn the_size_of_another_file_is_dropped() {
    let mut t = FormTable::new();
    t.choose_row_file(0, Some("/tmp/a"));
    t.choose_row_file(0, Some("/tmp/b"));
    t.row_file_measured(0, "/tmp/a", Some(1));
    assert_eq!(t.row_file_size(0), None);
    t.row_file_measured(9, "/tmp/b", Some(1));
    t.row_file_measured(0, "/tmp/b", Some(2));
    assert_eq!(t.row_file_size(0), Some(2));
    assert_eq!(t.row_file_size(9), None);
}

#[test]
fn form_rows_are_typed_toggled_and_removed() {
    let mut t = FormTable::new();
    t.edit_row(0, "k", "v");
    assert_eq!(t.row_count(), 2);
    assert_eq!(t.form_fields(), vec![FormField::text("k", "v")]);
    t.set_row_kind(0, RowKind::Text);
    assert_eq!(t.form_fields(), vec![FormField::text("k", "v")]);
    t.choose_row_file(1, Some("/tmp/a"));
    t.edit_row(1, "f", "ignored");
    assert_eq!(t.form_fields()[1], FormField::file("f", "/tmp/a"));
    t.toggle_row(1, false);
    assert!(!t.row(1).field.enabled);
    t.remove_row(0);
    assert_eq!(t.form_fields().len(), 1);
    t.remove_row(0);
    t.remove_row(7);
    assert!(t.form_fields().is_empty());
    assert_eq!(t.row_count(), 1);
}
