use vert::version::Version;

#[test]
fn prefix_rule() {
    let a = Version::new(vec![1, 2]);
    let b = Version::new(vec![1, 2, 0]);
    let c = Version::new(vec![1, 2, 1]);
    assert!(a < b);
    assert!(b < c);
    assert!(a < c);
    assert!(!(b < a));
    assert!(!(c < b));
}

#[test]
fn ordering_is_by_first_difference() {
    assert!(Version::new(vec![1, 8, 2]) < Version::new(vec![1, 8, 10]));
    assert!(Version::new(vec![1, 9]) < Version::new(vec![2, 0]));
    assert!(Version::new(vec![2, 0]) > Version::new(vec![1, 999, 999]));
    assert_eq!(Version::new(vec![1, 2, 3]), Version::new(vec![1, 2, 3]));
    assert_ne!(Version::new(vec![1, 2, 3]), Version::new(vec![1, 2]));
}

#[test]
fn parsed_versions_compare_numerically() {
    let old = Version::from_str("sudo-1.8.1.tar.gz").unwrap();
    let new = Version::from_str("sudo-1.8.10.tar.gz").unwrap();
    assert!(old < new);
    assert!(!(new < old));
}
