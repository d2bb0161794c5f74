use lector::origin::{is_own_origin, site_url};

#[test]
fn only_this_tabs_own_origin_stays_in_the_webview() {
    // Same origin — navigate in place.
    assert!(is_own_origin("http://127.0.0.1:8080/", 8080));
    assert!(is_own_origin("http://127.0.0.1:8080/guides/x.html", 8080));
    assert!(is_own_origin("http://127.0.0.1:8080/__reload", 8080));

    // A different tab's port is not this tab's origin.
    assert!(!is_own_origin("http://127.0.0.1:9999/", 8080));

    // Off-site links escape to the system browser.
    assert!(!is_own_origin("https://github.com/lockyc/lector", 8080));
    assert!(!is_own_origin("http://example.test/", 8080));
    assert!(
        !is_own_origin("https://127.0.0.1:8080/", 8080),
        "scheme must match"
    );
    // A lookalike host must not pass a naive prefix check.
    assert!(!is_own_origin("http://127.0.0.1.evil.test/", 8080));
    assert!(!is_own_origin("http://127.0.0.1:8080.evil.test/", 8080));
}

#[test]
fn own_origin_ends_at_query_or_fragment_too() {
    assert!(is_own_origin("http://127.0.0.1:8080?x=1", 8080));
    assert!(is_own_origin("http://127.0.0.1:8080#top", 8080));
    assert!(is_own_origin("http://127.0.0.1:8080", 8080));
    assert!(!is_own_origin("http://127.0.0.1:808", 8080));
    assert!(!is_own_origin("http:/", 8080));
    assert!(!is_own_origin("", 8080));
}

#[test]
fn site_url_is_the_loopback_root() {
    assert_eq!(site_url(8080), "http://127.0.0.1:8080/");
    assert_eq!(site_url(0), "http://127.0.0.1:0/");
    assert_eq!(site_url(65535), "http://127.0.0.1:65535/");
    assert!(is_own_origin(&site_url(4242), 4242));
}

#[test]
fn a_tabs_own_url_passes_its_gate_and_no_other_ports() {
    for port in [0u16, 7, 80, 8080, 65535] {
        let url = site_url(port);
        assert!(is_own_origin(&url, port));
        for other in [0u16, 8, 808, 8081, 65534] {
            if other != port {
                assert!(!is_own_origin(&url, other), "{url} is not the site of {other}");
            }
        }
    }
    assert!(!is_own_origin("http://127.0.0.1:08080/", 8080), "a zero-padded port is another authority");
}
