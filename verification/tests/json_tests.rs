use jukebox::json::{parse_json, Json};

fn parsed(s: &str) -> Json {
    parse_json(s.as_bytes()).unwrap()
}

fn str_of(j: &Json) -> String {
    String::from_utf8(j.str_bytes().unwrap().clone()).unwrap()
}

#[test]
fn parses_scalars() {
    assert!(matches!(parsed("null"), Json::Null));
    assert!(matches!(parsed("true"), Json::Bool(true)));
    assert!(matches!(parsed("false"), Json::Bool(false)));
    assert!(matches!(parsed("42"), Json::Int(42)));
    assert!(matches!(parsed("-7"), Json::Int(-7)));
    assert!(matches!(parsed(" 0 "), Json::Int(0)));
}

#[test]
fn big_and_fractional_numbers_keep_their_text() {
    match parsed("3.25") {
        Json::NumText(t) => assert_eq!(t, b"3.25".to_vec()),
        _ => panic!("expected literal text"),
    }
    match parsed("-2.5e3") {
        Json::NumText(t) => assert_eq!(t, b"-2.5e3".to_vec()),
        _ => panic!("expected literal text"),
    }
    match parsed("99999999999999999999") {
        Json::NumText(t) => assert_eq!(t, b"99999999999999999999".to_vec()),
        _ => panic!("expected literal text"),
    }
    assert!(matches!(parsed("9223372036854775807"), Json::Int(i64::MAX)));
}

#[test]
fn parses_strings_with_escapes() {
    assert_eq!(str_of(&parsed(r#""hello""#)), "hello");
    assert_eq!(str_of(&parsed(r#""a&b""#)), "a&b");
    assert_eq!(str_of(&parsed(r#""tab\there""#)), "tab\there");
    assert_eq!(str_of(&parsed(r#""q\"q""#)), "q\"q");
    assert_eq!(str_of(&parsed(r#""back\\slash""#)), "back\\slash");
    assert_eq!(str_of(&parsed(r#""café""#)), "caf\u{e9}");
    // a surrogate pair
    assert_eq!(str_of(&parsed(r#""😀""#)), "\u{1f600}");
}

#[test]
fn rejects_malformed_text() {
    assert!(parse_json(b"").is_none());
    assert!(parse_json(b"{").is_none());
    assert!(parse_json(b"[1,]").is_none());
    assert!(parse_json(b"{\"a\":}").is_none());
    assert!(parse_json(b"\"unterminated").is_none());
    assert!(parse_json(b"\"bad\\escape\"").is_none());
    assert!(parse_json(b"12 34").is_none());
    assert!(parse_json(b"truth").is_none());
    assert!(parse_json(b"01").is_none());
    assert!(parse_json(b"-01").is_none());
    assert!(parse_json(b"1.").is_none());
    assert!(parse_json(b".5").is_none());
    assert!(parse_json(b"+1").is_none());
    assert!(parse_json(b"\"lone\\ud800surrogate\"").is_none());
}

#[test]
fn navigates_objects_and_arrays() {
    let j = parsed(r#"{"a":{"b":[10,20,{"c":"deep"}]},"a":"shadowed"}"#);
    let a = j.get(b"a").unwrap();
    let arr = a.get(b"b").unwrap();
    assert_eq!(arr.get_index(0).unwrap().as_u64(), Some(10));
    assert_eq!(arr.get_index(1).unwrap().as_u64(), Some(20));
    let c = arr.get_index(2).unwrap().get(b"c").unwrap();
    assert_eq!(str_of(c), "deep");
    assert!(arr.get_index(3).is_none());
    assert!(j.get(b"missing").is_none());
    // the first member with a key wins
    assert!(j.get(b"a").unwrap().get(b"b").is_some());
}

#[test]
fn whitespace_is_insignificant() {
    let j = parsed(" { \"k\" :\t[ 1 ,\r\n 2 ] } ");
    let arr = j.get(b"k").unwrap();
    assert_eq!(arr.arr_items().unwrap().len(), 2);
}

#[test]
fn as_u64_refuses_negative_and_non_numbers() {
    assert_eq!(parsed("-1").as_u64(), None);
    assert_eq!(parsed(r#""5""#).as_u64(), None);
    assert_eq!(parsed("5").as_u64(), Some(5));
}
