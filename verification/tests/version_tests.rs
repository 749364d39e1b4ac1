use vert::version::{ParseError, Version};

#[test]
fn test_version() {
    assert!(Version::from_str("package.tar.gz").is_err());
    assert!(Version::from_str("SHA256").is_err());

    let v = vec![1, 2, 3];
    assert_eq!(Version::from_str("1.2.3").unwrap(), Version::new(v.clone()));
    assert_eq!(Version::from_str("1-2-3").unwrap(), Version::new(v.clone()));
    assert_eq!(Version::from_str("01.02.03").unwrap(), Version::new(v.clone()));
    assert_eq!(Version::from_str("package-1.2.3").unwrap(), Version::new(v.clone()));
    assert_eq!(Version::from_str("package-1.2-3").unwrap(), Version::new(v.clone()));
    assert_eq!(
        Version::from_str("package-1.2.3.tar.gz").unwrap(),
        Version::new(v.clone())
    );
    assert_eq!(
        Version::from_str("package-1.2.3.post1").unwrap(),
        Version::new(v.clone())
    );
}

#[test]
fn test_version_string() {
    let version = Version::new(vec![1, 2, 3]);
    assert_eq!(&version.to_string(), "1.2.3");
}

#[test]
fn parse_error_kinds() {
    assert_eq!(
        Version::from_str("no digits here").unwrap_err(),
        ParseError::NoDigitFound
    );
    assert_eq!(Version::from_str("").unwrap_err(), ParseError::NoDigitFound);
    assert_eq!(
        Version::from_str("SHA256").unwrap_err(),
        ParseError::InsufficientComponents
    );
    assert_eq!(
        Version::from_str("1").unwrap_err(),
        ParseError::InsufficientComponents
    );
    assert_eq!(
        Version::from_str("1.").unwrap_err(),
        ParseError::InsufficientComponents
    );
}

#[test]
fn parse_stops_at_first_bad_token() {
    // an oversized middle token ends the decode before a second component
    assert_eq!(
        Version::from_str("1.2147483648.3").unwrap_err(),
        ParseError::InsufficientComponents
    );
    // a component may hold the largest value the type carries
    assert_eq!(
        Version::from_str("2147483647.1").unwrap(),
        Version::new(vec![2147483647, 1])
    );
    // empty tokens stop the decode too
    assert_eq!(
        Version::from_str("1..2").unwrap_err(),
        ParseError::InsufficientComponents
    );
}

#[test]
fn leading_zeros_normalize() {
    assert_eq!(
        Version::from_str("007.00010").unwrap(),
        Version::new(vec![7, 10])
    );
    assert_eq!(
        &Version::from_str("01.02.03").unwrap().to_string(),
        "1.2.3"
    );
}

#[test]
fn numeric_components_round_trip() {
    let v = Version::from_str("sudo-1.8.10.tar.gz").unwrap();
    assert_eq!(&v.to_string(), "1.8.10");
    assert_eq!(Version::from_str(&v.to_string()).unwrap(), v);
    assert_eq!(&Version::new(vec![10, 0]).to_string(), "10.0");
    assert_eq!(&Version::new(vec![0, 0]).to_string(), "0.0");
}
