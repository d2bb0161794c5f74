use lector::identity::{detach_window_token, namespaced, window_id, window_of};

#[test]
fn window_id_is_stable_and_label_safe() {
    assert_eq!(window_id("Docs"), window_id("Docs"));
    assert_ne!(window_id("Docs"), window_id("Other"));
    assert!(window_id("Docs").starts_with('w'));
    assert_eq!(window_id("Docs").len(), 17);
}

#[test]
fn namespaced_composes_with_a_colon() {
    assert_eq!(
        namespaced("wdeadbeefdeadbeef", "chrome"),
        "wdeadbeefdeadbeef:chrome"
    );
}

#[test]
fn window_id_is_w_then_the_hex_hash_of_the_title() {
    // fnv1a_64(b"a") = 0xaf63dc4c8601ec8c
    assert_eq!(window_id("a"), "waf63dc4c8601ec8c");
    // fnv1a_64(b"") = 0xcbf29ce484222325, zero-padded to 16 digits either way
    assert_eq!(window_id(""), "wcbf29ce484222325");
    assert!(window_id("Docs")[1..]
        .chars()
        .all(|c| c.is_ascii_digit() || ('a'..='f').contains(&c)));
}

#[test]
fn window_of_takes_everything_before_the_first_colon() {
    assert_eq!(window_of("w1:tab-abc"), "w1");
    assert_eq!(window_of("w1:tab:x"), "w1");
    assert_eq!(window_of("nocolon"), "nocolon");
    assert_eq!(window_of(":lead"), "");
    let wid = window_id("Docs");
    assert_eq!(window_of(&namespaced(&wid, "tab-1")), wid);
}

#[test]
fn detach_token_is_the_tab_label() {
    let label = "w0123456789abcdef:tab-00112233445566ff";
    assert_eq!(detach_window_token(label), label);
    assert_eq!(detach_window_token(label), detach_window_token(label));
}
