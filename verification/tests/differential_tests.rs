//! The library's own JSON parser and percent-coders, held against the
//! ecosystem's implementations on shared ground.

use jukebox::json::{parse_json, Json};
use jukebox::urlcode::{pct_decode, pct_encode};

fn my_str(j: &Json) -> String {
    String::from_utf8(j.str_bytes().unwrap().clone()).unwrap()
}

#[test]
fn string_decoding_agrees_with_the_ecosystem_parser() {
    let fixtures = [
        r#""plain""#,
        r#""a\u0026b""#,
        r#""tab\tnl\nquote\"back\\slash\/""#,
        r#""caf\u00e9 \u65e5\u672c""#,
        r#""pair \ud83d\ude00 done""#,
    ];
    for f in fixtures {
        let mine = parse_json(f.as_bytes()).unwrap();
        let theirs: serde_json::Value = serde_json::from_str(f).unwrap();
        assert_eq!(my_str(&mine), theirs.as_str().unwrap());
    }
}

#[test]
fn number_and_navigation_agree_with_the_ecosystem_parser() {
    let f = r#"{"a":{"b":[1,-2,30],"c":"x"},"n":9007199254740993}"#;
    let mine = parse_json(f.as_bytes()).unwrap();
    let theirs: serde_json::Value = serde_json::from_str(f).unwrap();
    let my_arr = mine.get(b"a").unwrap().get(b"b").unwrap();
    let their_arr = &theirs["a"]["b"];
    for i in 0..3 {
        let their_n = their_arr.get(i).unwrap().as_i64().unwrap();
        match my_arr.get_index(i).unwrap() {
            Json::Int(n) => assert_eq!(*n, their_n),
            _ => panic!("expected an integer"),
        }
    }
    assert_eq!(my_str(mine.get(b"a").unwrap().get(b"c").unwrap()), "x");
    match mine.get(b"n").unwrap() {
        Json::Int(n) => assert_eq!(*n, theirs["n"].as_i64().unwrap()),
        _ => panic!("expected an integer"),
    }
}

#[test]
fn acceptance_agrees_on_malformed_fixtures() {
    let fixtures = [
        "{", "[1,]", "tru", "\"open", "{\"a\":1,}", "[]extra", "\"\\x\"", "01", "1.", ".5",
    ];
    for f in fixtures {
        assert!(parse_json(f.as_bytes()).is_none(), "{}", f);
        assert!(serde_json::from_str::<serde_json::Value>(f).is_err(), "{}", f);
    }
}

#[test]
fn percent_decoding_agrees_with_the_ecosystem_decoder() {
    let fixtures = [
        "plain",
        "a%20b%26c",
        "broken%2 half%",
        "%zz%25%",
        "https%3A%2F%2Fcdn.example%2Fa%3Fx%3D1",
    ];
    for f in fixtures {
        let mine = pct_decode(f.as_bytes());
        let theirs = urlencoding::decode_binary(f.as_bytes());
        assert_eq!(mine.as_slice(), theirs.as_ref(), "{}", f);
    }
}

#[test]
fn percent_encoding_agrees_with_the_ecosystem_encoder() {
    let fixtures = ["plain", "dig dug & co", "a/b?c=d", "~tilde_and-dots."];
    for f in fixtures {
        let mine = pct_encode(f.as_bytes());
        let theirs = urlencoding::encode(f);
        assert_eq!(String::from_utf8(mine).unwrap(), theirs.as_ref(), "{}", f);
    }
}
