use jukebox::cipher::{decode_signature, reverse, slice, swap, CipherFunction};

fn bytes(s: &str) -> Vec<u8> {
    s.as_bytes().to_vec()
}

fn text(v: &[u8]) -> String {
    String::from_utf8(v.to_vec()).unwrap()
}

#[test]
fn empty_program_returns_input_unchanged() {
    let prog: Vec<CipherFunction> = Vec::new();
    let out = decode_signature(&prog, bytes("a0b1c2")).unwrap();
    assert_eq!(text(&out), "a0b1c2");
    let out = decode_signature(&prog, Vec::new()).unwrap();
    assert!(out.is_empty());
}

#[test]
fn swap_two_on_abcdef() {
    let mut s = bytes("abcdef");
    swap(&mut s, 2);
    assert_eq!(text(&s), "cbadef");
}

#[test]
fn reverse_abc() {
    let mut s = bytes("abc");
    reverse(&mut s);
    assert_eq!(text(&s), "cba");
}

#[test]
fn slice_two_on_abcdef() {
    let mut s = bytes("abcdef");
    slice(&mut s, 2);
    assert_eq!(text(&s), "cdef");
}

#[test]
fn slice_beyond_end_empties() {
    let mut s = bytes("ab");
    slice(&mut s, 9);
    assert!(s.is_empty());
}

#[test]
fn program_applies_in_recorded_order() {
    let prog = vec![
        CipherFunction::Swap(1),
        CipherFunction::Slice(2),
        CipherFunction::Reverse,
    ];
    let out = decode_signature(&prog, bytes("fedcba")).unwrap();
    assert_eq!(text(&out), "abcd");
}

#[test]
fn swap_out_of_range_is_a_typed_error() {
    let prog = vec![CipherFunction::Swap(10)];
    let r = decode_signature(&prog, bytes("abc"));
    assert!(r.is_err());
    let prog = vec![CipherFunction::Swap(0)];
    let r = decode_signature(&prog, Vec::new());
    assert!(r.is_err());
}

#[test]
fn swap_at_zero_is_identity() {
    let prog = vec![CipherFunction::Swap(0)];
    let out = decode_signature(&prog, bytes("xyz")).unwrap();
    assert_eq!(text(&out), "xyz");
}
