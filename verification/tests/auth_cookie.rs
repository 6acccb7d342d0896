use dshell::auth_cookie::{is_auth, purge_stale, removed, COOKIE_PREFIX};

#[test]
fn prefix_selects_only_dsh_auth_cookies() {
    let auth = |n: &str| n.starts_with(COOKIE_PREFIX);
    for name in [
        "dsh-auth-PXif6sCVwC7-iYFjpDcAJV1pDdkiJOL1zAxal6Ds9a4",
        "dshell_picker_token",
        "__Host-something",
    ] {
        assert_eq!(is_auth(name), auth(name));
    }
    assert!(auth("dsh-auth-PXif6sCVwC7-iYFjpDcAJV1pDdkiJOL1zAxal6Ds9a4"));
    assert!(!auth("dshell_picker_token"));
    assert!(!auth("__Host-something"));
    assert!(is_auth("dsh-auth-PXif6sCVwC7-iYFjpDcAJV1pDdkiJOL1zAxal6Ds9a4"));
    assert!(!is_auth("dshell_picker_token"));
    assert!(!is_auth("__Host-something"));
}

#[test]
fn stale_cookies_are_found_in_place() {
    let names: Vec<String> =
        ["dsh-auth-a", "theme", "dsh-auth-", "Dsh-auth-b"].iter().map(|s| s.to_string()).collect();
    assert_eq!(purge_stale(&names), [0, 2]);
    assert!(purge_stale(&Vec::new()).is_empty());
}

#[test]
fn only_deletions_that_went_well_count() {
    assert_eq!(removed(&vec![true, false, true]), 2);
    assert_eq!(removed(&vec![]), 0);
}
