use getcat::store::queue::{Change, WriteQueue, COALESCE_MS};

fn write(text: &str) -> Change {
    Change::Write(text.as_bytes().to_vec())
}

#[test]
fn the_last_change_to_a_document_is_written() {
    let mut q = WriteQueue::new();
    assert!(q.is_empty());
    q.push("a.json", write("1"));
    q.push("b.json", write("2"));
    q.push("a.json", write("3"));
    assert!(!q.is_empty());
    let batch = q.take();
    assert!(q.is_empty());
    assert_eq!(batch.len(), 2);
    assert_eq!((batch[0].file.as_str(), &batch[0].change), ("a.json", &write("3")));
    assert_eq!((batch[1].file.as_str(), &batch[1].change), ("b.json", &write("2")));
}

#[test]
fn a_document_that_is_deleted_is_not_written_any_more() {
    let mut q = WriteQueue::new();
    q.push("drafts/x.json", write("{}"));
    q.push("drafts/x.json", Change::Delete);
    let batch = q.take();
    assert_eq!(batch.len(), 1);
    assert_eq!(batch[0].change, Change::Delete);
    q.push("drafts/x.json", Change::Delete);
    q.push("drafts/x.json", write("{}"));
    assert_eq!(q.take()[0].change, write("{}"));
    assert!(q.take().is_empty());
    assert_eq!(COALESCE_MS, 500);
}
