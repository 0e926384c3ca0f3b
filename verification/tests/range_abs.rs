use playform::range_abs::range_abs;

#[test]
fn basic_test() {
    let mut range = range_abs(2 as i32);
    assert_eq!(range.next(), Some(0));
    assert_eq!(range.next(), Some(1));
    assert_eq!(range.next(), Some(-1));
    assert_eq!(range.next(), Some(2));
    assert_eq!(range.next(), Some(-2));
    assert_eq!(range.next(), None);
}

#[test]
fn test_range_abs_0() {
    let mut range = range_abs(0 as i32);
    assert_eq!(range.next(), Some(0));
    assert_eq!(range.next(), None);
}

#[test]
fn range_abs_size_hint_follows_the_estimate() {
    let mut range = range_abs(2);
    assert_eq!(range.size_hint(), (6, Some(6)));
    range.next();
    assert_eq!(range.size_hint(), (4, Some(4)));
    range.next();
    assert_eq!(range.size_hint(), (4, Some(4)));
    range.next();
    assert_eq!(range.size_hint(), (2, Some(2)));
    range.next();
    range.next();
    assert_eq!(range.size_hint(), (0, Some(0)));
    assert_eq!(range.next(), None);
    assert_eq!(range.next(), None);
}
