use csml::bots::{next_pagination_key, page_size, pagination_page, MAX_PAGE_SIZE};

#[test]
fn page_from_pagination_key() {
    assert_eq!(pagination_page(None), 1);
    assert_eq!(pagination_page(Some("3")), 3);
    assert_eq!(pagination_page(Some("-2")), -2);
    assert_eq!(pagination_page(Some("three")), 1);
    assert_eq!(pagination_page(Some("")), 1);
}

#[test]
fn page_size_is_capped() {
    assert_eq!(page_size(None), 25);
    assert_eq!(page_size(Some(10)), 10);
    assert_eq!(page_size(Some(25)), 25);
    assert_eq!(page_size(Some(100)), MAX_PAGE_SIZE);
    assert_eq!(page_size(Some(-5)), -5);
}

#[test]
fn next_key_only_before_last_page() {
    assert_eq!(next_pagination_key(1, 3), Some("2".to_owned()));
    assert_eq!(next_pagination_key(2, 3), Some("3".to_owned()));
    assert_eq!(next_pagination_key(3, 3), None);
    assert_eq!(next_pagination_key(5, 3), None);
    assert_eq!(next_pagination_key(1, 0), None);
}

#[test]
fn next_key_reads_back_as_next_page() {
    for (page, total) in [(1i64, 2i64), (9, 100), (-4, 0), (i64::MAX - 1, i64::MAX)] {
        let key = next_pagination_key(page, total).unwrap();
        assert_eq!(pagination_page(Some(&key)), page + 1);
    }
}
