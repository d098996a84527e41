use getcat::kv_table::KvTable;
use getcat::model::KeyValue;

fn table(rows: &[(&str, &str)]) -> KvTable {
    let mut t = KvTable::new();
    t.set_values(&rows.iter().map(|(k, v)| KeyValue::new(k, v)).collect());
    t
}

#[test]
fn values_are_read_back_and_a_blank_row_stays() {
    let values = vec![
        KeyValue::new("a", "1"),
        KeyValue {
            enabled: false,
            ..KeyValue::new("b", "")
        },
    ];
    let mut t = KvTable::new();
    assert_eq!(t.row_count(), 1);
    t.set_values(&values);
    assert_eq!(t.values(), values);
    assert_eq!(t.row_count(), 3);
    t.set_values(&vec![]);
    assert!(t.values().is_empty());
    assert_eq!(t.row_count(), 1);
    let mut locked = KvTable::new().locked_keys(true);
    assert_eq!(locked.row_count(), 0);
    locked.set_values(&values);
    assert_eq!(locked.row_count(), 2);
    assert_eq!(locked.values(), values);
}

#[test]
fn typing_into_the_last_row_adds_another() {
    let mut t = KvTable::new();
    t.edit_row(0, "k", "v");
    assert_eq!(t.row_count(), 2);
    assert_eq!(t.values(), vec![KeyValue::new("k", "v")]);
    t.edit_row(9, "x", "y");
    assert_eq!(t.values().len(), 1);
    assert_eq!(t.row(0).key, "k");
}

#[test]
fn syncing_keys_keeps_the_values_of_rows_that_stay() {
    let mut t = KvTable::new().locked_keys(true);
    t.set_values(&vec![KeyValue::new("id", "7")]);
    assert!(t.sync_keys(&vec!["tenant".into(), "id".into()]));
    assert_eq!(
        t.values(),
        vec![KeyValue::new("tenant", ""), KeyValue::new("id", "7")]
    );
    assert!(!t.sync_keys(&vec!["tenant".into(), "id".into()]));
    assert!(t.sync_keys(&vec![]));
    assert_eq!(t.row_count(), 0);
}

#[test]
fn rows_are_removed_and_toggled() {
    let mut t = table(&[("a", "1"), ("b", "2"), ("", "x")]);
    assert_eq!(t.count(), 2);
    t.toggle_row(0, false);
    assert_eq!(t.count(), 1);
    assert!(!t.values()[0].enabled);
    t.remove_row(1);
    assert_eq!(t.values().len(), 2);
    t.remove_row(99);
    t.toggle_row(99, true);
    assert_eq!(t.row_count(), 3);
    for _ in 0..3 {
        t.remove_row(0);
    }
    assert_eq!(t.row_count(), 1);
}
