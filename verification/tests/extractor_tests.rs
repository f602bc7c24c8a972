use jukebox::cipher::CipherFunction;
use jukebox::extractor::get_cipher_fun;

fn script(decoder_name: &str, helper: &str, swap: &str, slice: &str, rev: &str) -> String {
    // A synthetic client script holding the three known structural
    // shapes under whatever identifiers the caller picks.
    let mut s = String::new();
    s.push_str("var ");
    s.push_str(decoder_name);
    s.push_str("=function(a){a=a.split(\"\");");
    s.push_str(helper);
    s.push_str(".");
    s.push_str(swap);
    s.push_str("(a,1);");
    s.push_str(helper);
    s.push_str(".");
    s.push_str(slice);
    s.push_str("(a,2);");
    s.push_str(helper);
    s.push_str(".");
    s.push_str(rev);
    s.push_str("(a,0);return a.join(\"\")};var ");
    s.push_str(helper);
    s.push_str("={");
    s.push_str(swap);
    s.push_str(":function(a,b){var c=a[0];a[0]=a[b%a.length];a[b%a.length]=c},\n");
    s.push_str(slice);
    s.push_str(":function(a,b){a.splice(0,b)},\n");
    s.push_str(rev);
    s.push_str(":function(a){a.reverse()}};");
    s
}

#[test]
fn recovers_the_program_from_a_synthetic_script() {
    let js = script("xy", "Wc", "sw", "sl", "rv");
    let prog = get_cipher_fun(js.as_bytes()).unwrap();
    assert_eq!(
        prog,
        vec![
            CipherFunction::Swap(1),
            CipherFunction::Slice(2),
            CipherFunction::Reverse,
        ]
    );
}

#[test]
fn the_program_does_not_depend_on_identifier_names() {
    let a = get_cipher_fun(script("xy", "Wc", "sw", "sl", "rv").as_bytes()).unwrap();
    let b = get_cipher_fun(script("q0$", "zZ_", "aaa", "b$b", "c_c").as_bytes()).unwrap();
    let c = get_cipher_fun(script("deoby", "HH", "x1", "y2", "z3").as_bytes()).unwrap();
    assert_eq!(a, b);
    assert_eq!(a, c);
}

#[test]
fn member_order_does_not_fix_the_roles() {
    // The reversal member first, the splice member last: the roles are
    // read off the bodies, not the positions.
    let js = "d=function(a){a=a.split(\"\");H.p(a,3);H.q(a,7);return a.join(\"\")};\
              var H={p:function(a){a.reverse()},\nq:function(a,b){a.splice(0,b)},\n\
              r:function(a,b){var c=a[0];a[0]=a[b%a.length];a[b%a.length]=c}};";
    let prog = get_cipher_fun(js.as_bytes()).unwrap();
    assert_eq!(prog, vec![CipherFunction::Reverse, CipherFunction::Slice(7)]);
}

#[test]
fn two_decoder_shapes_are_fatal() {
    let mut js = script("xy", "Wc", "sw", "sl", "rv");
    js.push_str(&script("ab", "Vd", "s1", "s2", "s3"));
    assert!(get_cipher_fun(js.as_bytes()).is_err());
}

#[test]
fn no_decoder_shape_is_fatal() {
    assert!(get_cipher_fun(b"var a=1;").is_err());
    assert!(get_cipher_fun(b"").is_err());
}

#[test]
fn an_ambiguous_member_body_is_fatal() {
    // One member shows both the reversal and the splice shape.
    let js = "d=function(a){a=a.split(\"\");H.p(a,3);return a.join(\"\")};\
              var H={p:function(a,b){a.reverse();a.splice(0,b)},\nq:function(a,b){a.splice(0,b)},\n\
              r:function(a,b){var c=a[0];a[0]=a[b%a.length];a[b%a.length]=c}};";
    assert!(get_cipher_fun(js.as_bytes()).is_err());
}

#[test]
fn two_members_of_one_role_are_fatal() {
    let js = "d=function(a){a=a.split(\"\");H.p(a,3);return a.join(\"\")};\
              var H={p:function(a){a.reverse()},\nq:function(a){a.reverse()},\n\
              r:function(a,b){a.splice(0,b)}};";
    assert!(get_cipher_fun(js.as_bytes()).is_err());
}

#[test]
fn an_unreadable_argument_is_fatal() {
    let js = "d=function(a){a=a.split(\"\");H.q(a,x);return a.join(\"\")};\
              var H={p:function(a){a.reverse()},\nq:function(a,b){a.splice(0,b)},\n\
              r:function(a,b){var c=a[0];a[0]=a[b%a.length];a[b%a.length]=c}};";
    assert!(get_cipher_fun(js.as_bytes()).is_err());
}

#[test]
fn a_decoder_with_no_calls_is_fatal() {
    let js = "d=function(a){a=a.split(\"\");return a.join(\"\")};\
              var H={p:function(a){a.reverse()},\nq:function(a,b){a.splice(0,b)},\n\
              r:function(a,b){var c=a[0];a[0]=a[b%a.length];a[b%a.length]=c}};";
    assert!(get_cipher_fun(js.as_bytes()).is_err());
}
