use dshell::version::{comes_before, is_older, is_version, parse};

#[test]
fn versions_are_read() {
    let v = parse("0.1.6-alpha.2+build.5").expect("a version");
    assert_eq!((v.major, v.minor, v.patch), (0, 1, 6));
    assert_eq!(v.pre, "alpha.2");
    assert_eq!(v.build, "build.5");
    assert!(is_version("1.0.0"));
}

#[test]
fn what_is_no_version_is_refused() {
    for s in ["", "1", "1.2", "01.0.0", "1.0.0-", "1.0.0-01", "1.0.0+", "v1.0.0", "1.0.0 ", "latest",
        "18446744073709551616.0.0"]
    {
        assert!(parse(s).is_none(), "{s:?}");
        assert!(semver::Version::parse(s).is_err(), "{s:?}");
    }
}

#[test]
fn release_is_newer_than_its_prereleases() {
    assert!(is_older("0.1.6-alpha.2", "0.1.6"));
    assert!(is_older("0.1.6-alpha.2", "0.1.6-alpha.10"));
    assert!(is_older("0.1.6-alpha.10", "0.1.6-rc.1"));
    assert!(!is_older("0.1.6", "0.1.6"));
    assert!(!is_older("0.1.6", "0.1.6-rc.1"));
}

#[test]
fn what_is_no_version_is_never_older() {
    assert!(!is_older("latest", "1.0.0"));
    assert!(!is_older("1.0.0", "latest"));
}

#[test]
fn texts_compare_by_their_codes() {
    assert!(comes_before("a", "b"));
    assert!(comes_before("a", "aa"));
    assert!(!comes_before("b", "a"));
    assert!(!comes_before("a", "a"));
}
