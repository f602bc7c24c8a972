use jukebox::locator::{get_js_url, get_var};

#[test]
fn extracts_the_marked_object() {
    let page = b"<html><script>var ytInitialData = {\"k\":1};</script></html>";
    let j = get_var(page, b"var ytInitialData").unwrap();
    assert_eq!(j.get(b"k").unwrap().as_u64(), Some(1));
}

#[test]
fn a_missing_marker_is_an_error() {
    let page = b"<html><script>var other = {};</script></html>";
    let r = get_var(page, b"var ytInitialData");
    assert!(r.is_err());
}

#[test]
fn a_missing_boundary_is_an_error() {
    let page = b"<html><script>var ytInitialData = {\"k\":1};";
    let r = get_var(page, b"var ytInitialData");
    assert!(r.is_err());
}

#[test]
fn a_malformed_region_is_an_error() {
    let page = b"<html><script>var ytInitialData = {oops;</script></html>";
    let r = get_var(page, b"var ytInitialData");
    assert!(r.is_err());
}

#[test]
fn the_first_marker_occurrence_wins() {
    let page =
        b"<script>var ytInitialData = {\"a\":1};</script><script>var ytInitialData = {\"a\":2};</script>";
    let j = get_var(page, b"var ytInitialData").unwrap();
    assert_eq!(j.get(b"a").unwrap().as_u64(), Some(1));
}

#[test]
fn builds_the_client_script_address() {
    let page = b"<html>\"jsUrl\":\"/s/player/abc123/base.js\",\"more\":1</html>";
    let u = get_js_url(page).unwrap();
    assert_eq!(
        String::from_utf8(u).unwrap(),
        "https://www.youtube.com/s/player/abc123/base.js"
    );
}

#[test]
fn a_page_without_the_script_key_is_an_error() {
    assert!(get_js_url(b"<html>nothing here</html>").is_err());
}
