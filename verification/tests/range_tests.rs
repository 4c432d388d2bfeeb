use grid_layout::GridRange;

#[test]
fn range_conversion_keeps_endpoints() {
    let r = GridRange::from(2..5);
    assert_eq!(r.start, 2);
    assert_eq!(r.end, 5);
    assert_eq!(r.len(), 3);
    assert!(!r.is_empty());
}

#[test]
fn single_index_conversion_spans_one() {
    let r = GridRange::from(4);
    assert_eq!(r.start, 4);
    assert_eq!(r.end, 5);
    assert_eq!(r.len(), 1);
    assert!(!r.is_empty());
}

#[test]
fn empty_range_has_no_length() {
    let r = GridRange::from(3..3);
    assert_eq!(r.len(), 0);
    assert!(r.is_empty());
}
