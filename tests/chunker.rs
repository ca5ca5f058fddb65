use csv_splitter::{Chunker, RecordShapeError};

fn row(items: &[&str]) -> Vec<String> {
    items.iter().map(|s| s.to_string()).collect()
}

#[test]
fn batches_are_full_until_the_last() {
    let mut chunker = Chunker::new(2, 2);
    assert_eq!(chunker.push(row(&["a", "1"])).unwrap(), None);
    let full = chunker.push(row(&["b", "2"])).unwrap().unwrap();
    assert_eq!(full, vec![row(&["a", "1"]), row(&["b", "2"])]);
    assert_eq!(chunker.push(row(&["c", "3"])).unwrap(), None);
    assert_eq!(chunker.rows_seen(), 3);
    assert_eq!(chunker.finish(), Some(vec![row(&["c", "3"])]));
}

#[test]
fn nothing_left_gives_no_batch() {
    let mut chunker = Chunker::new(1, 1);
    assert!(chunker.push(row(&["a"])).unwrap().is_some());
    assert_eq!(chunker.finish(), None);
}

#[test]
fn malformed_row_is_fatal_with_its_position() {
    let mut chunker = Chunker::new(3, 10);
    assert!(chunker.push(row(&["a", "b", "c"])).is_ok());
    let err = chunker.push(row(&["a", "b"])).unwrap_err();
    assert_eq!(err, RecordShapeError { row: 1, expected: 3, found: 2 });
    assert_eq!(chunker.rows_seen(), 1);
}
