//! A small JSON tree and a verified parser for it: the platform embeds its
//! page state as JSON object literals inside HTML, and every extraction
//! starts by parsing such a literal and navigating the resulting tree.
//!
//! The parser works on raw bytes. Decoded strings are kept as UTF-8 bytes;
//! numbers that fit a signed 64-bit integer are kept as integers, any
//! other number is kept as its literal text.

use vstd::prelude::*;

verus! {

/// A parsed JSON value.
#[derive(Debug)]
pub enum Json {
    Null,
    Bool(bool),
    /// A number with no fraction and no exponent, in signed 64-bit range.
    Int(i64),
    /// Any other number, kept as its literal text.
    NumText(Vec<u8>),
    /// A string, as UTF-8 bytes, escapes decoded.
    Str(Vec<u8>),
    Arr(Vec<Json>),
    Obj(Vec<(Vec<u8>, Json)>),
}

/// The mathematical shape of a JSON value.
pub enum JsonV {
    Null,
    Bool(bool),
    Int(int),
    NumText(Seq<u8>),
    Str(Seq<u8>),
    Arr(Seq<JsonV>),
    Obj(Seq<(Seq<u8>, JsonV)>),
}

/// The mathematical value of a parsed JSON tree.
pub open spec fn jv_of(j: Json) -> JsonV
    decreases j,
{
    match j {
        Json::Null => JsonV::Null,
        Json::Bool(b) => JsonV::Bool(b),
        Json::Int(n) => JsonV::Int(n as int),
        Json::NumText(t) => JsonV::NumText(t@),
        Json::Str(t) => JsonV::Str(t@),
        Json::Arr(items) => JsonV::Arr(jv_of_items(items@)),
        Json::Obj(fields) => JsonV::Obj(jv_of_fields(fields@)),
    }
}

/// The mathematical values of a sequence of array items.
pub open spec fn jv_of_items(items: Seq<Json>) -> Seq<JsonV>
    decreases items,
{
    if items.len() == 0 {
        Seq::empty()
    } else {
        seq![jv_of(items[0])] + jv_of_items(items.drop_first())
    }
}

/// The mathematical values of a sequence of object members.
pub open spec fn jv_of_fields(fields: Seq<(Vec<u8>, Json)>) -> Seq<(Seq<u8>, JsonV)>
    decreases fields,
{
    if fields.len() == 0 {
        Seq::empty()
    } else {
        seq![(fields[0].0@, jv_of(fields[0].1))] + jv_of_fields(fields.drop_first())
    }
}

/// Item views line up with the items themselves, position by position.
pub broadcast proof fn lemma_jv_of_items(items: Seq<Json>)
    ensures
        (#[trigger] jv_of_items(items)).len() == items.len(),
        forall|i: int| 0 <= i < items.len() ==> jv_of_items(items)[i] == jv_of(items[i]),
    decreases items.len(),
{
    if items.len() > 0 {
        lemma_jv_of_items(items.drop_first());
    }
}

/// Member views line up with the members themselves, position by position.
pub broadcast proof fn lemma_jv_of_fields(fields: Seq<(Vec<u8>, Json)>)
    ensures
        (#[trigger] jv_of_fields(fields)).len() == fields.len(),
        forall|i: int|
            0 <= i < fields.len() ==> jv_of_fields(fields)[i] == (
                fields[i].0@,
                jv_of(fields[i].1),
            ),
    decreases fields.len(),
{
    if fields.len() > 0 {
        lemma_jv_of_fields(fields.drop_first());
    }
}

impl View for Json {
    type V = JsonV;

    open spec fn view(&self) -> JsonV {
        jv_of(*self)
    }
}

/// JSON insignificant whitespace.
pub open spec fn is_ws(b: u8) -> bool {
    b == 0x20 || b == 0x09 || b == 0x0a || b == 0x0d
}

/// An ASCII decimal digit.
pub open spec fn is_digit(b: u8) -> bool {
    0x30 <= b <= 0x39
}

/// The value of an ASCII hexadecimal digit, if it is one.
pub open spec fn hex_val(b: u8) -> Option<u32> {
    if 0x30 <= b <= 0x39 {
        Some((b - 0x30) as u32)
    } else if 0x61 <= b <= 0x66 {
        Some((b - 0x61 + 10) as u32)
    } else if 0x41 <= b <= 0x46 {
        Some((b - 0x41 + 10) as u32)
    } else {
        None
    }
}

/// The first position at or after `i` holding no whitespace.
pub open spec fn sp_ws(s: Seq<u8>, i: int) -> int
    decreases s.len() - i,
{
    if 0 <= i < s.len() && is_ws(s[i]) {
        sp_ws(s, i + 1)
    } else {
        i
    }
}

/// The end of the run of decimal digits beginning at `i`.
pub open spec fn sp_digits(s: Seq<u8>, i: int) -> int
    decreases s.len() - i,
{
    if 0 <= i < s.len() && is_digit(s[i]) {
        sp_digits(s, i + 1)
    } else {
        i
    }
}

/// A digit run stays inside the text and never moves backwards.
pub proof fn lemma_sp_digits_bounds(s: Seq<u8>, i: int)
    requires
        0 <= i <= s.len(),
    ensures
        i <= sp_digits(s, i) <= s.len(),
    decreases s.len() - i,
{
    if i < s.len() && is_digit(s[i]) {
        lemma_sp_digits_bounds(s, i + 1);
    }
}

/// The numeric value of the digit run `s[a..b]`.
pub open spec fn dec_val(s: Seq<u8>, a: int, b: int) -> int
    decreases b - a,
{
    if a >= b {
        0
    } else {
        dec_val(s, a, b - 1) * 10 + (s[b - 1] - 0x30)
    }
}

/// The byte a single-character escape stands for, if the character names
/// one.
pub open spec fn esc_byte(b: u8) -> Option<u8> {
    if b == 0x22 {
        Some(0x22u8)  // "
    } else if b == 0x5c {
        Some(0x5cu8)  // backslash
    } else if b == 0x2f {
        Some(0x2fu8)  // /
    } else if b == 0x62 {
        Some(0x08u8)  // b
    } else if b == 0x66 {
        Some(0x0cu8)  // f
    } else if b == 0x6e {
        Some(0x0au8)  // n
    } else if b == 0x72 {
        Some(0x0du8)  // r
    } else if b == 0x74 {
        Some(0x09u8)  // t
    } else {
        None
    }
}

/// The value of the four hexadecimal digits at `s[i..i+4]`, if they are
/// such digits.
pub open spec fn sp_hex4(s: Seq<u8>, i: int) -> Option<u32> {
    if 0 <= i && i + 4 <= s.len() {
        match (hex_val(s[i]), hex_val(s[i + 1]), hex_val(s[i + 2]), hex_val(s[i + 3])) {
            (Some(a), Some(b), Some(c), Some(d)) => Some(
                (a * 0x1000 + b * 0x100 + c * 0x10 + d) as u32,
            ),
            _ => None,
        }
    } else {
        None
    }
}

/// The scalar value a surrogate pair stands for.
pub open spec fn surrogate_scalar(hi: u32, lo: u32) -> u32
    recommends
        0xD800 <= hi < 0xDC00,
        0xDC00 <= lo < 0xE000,
{
    (0x10000 + (hi - 0xD800) * 0x400 + (lo - 0xDC00)) as u32
}

/// The decoded content of a string literal whose opening quote stands just
/// before `i`, and the position just past its closing quote.
pub open spec fn sp_string(s: Seq<u8>, i: int) -> Option<(Seq<u8>, int)>
    decreases s.len() - i,
{
    if i < 0 || i >= s.len() {
        None
    } else if s[i] == 0x22 {
        Some((Seq::empty(), i + 1))
    } else if s[i] == 0x5c {
        if i + 2 > s.len() {
            None
        } else if s[i + 1] == 0x75 {
            match sp_hex4(s, i + 2) {
                None => None,
                Some(cp) => if 0xD800 <= cp < 0xDC00 {
                    if i + 12 <= s.len() && s[i + 6] == 0x5c && s[i + 7] == 0x75 {
                        match sp_hex4(s, i + 8) {
                            None => None,
                            Some(lo) => if 0xDC00 <= lo < 0xE000 {
                                match sp_string(s, i + 12) {
                                    Some((rest, e)) => Some(
                                        (
                                            vstd::utf8::encode_scalar(surrogate_scalar(cp, lo))
                                                + rest,
                                            e,
                                        ),
                                    ),
                                    None => None,
                                }
                            } else {
                                None
                            },
                        }
                    } else {
                        None
                    }
                } else if 0xDC00 <= cp < 0xE000 {
                    None
                } else {
                    match sp_string(s, i + 6) {
                        Some((rest, e)) => Some((vstd::utf8::encode_scalar(cp) + rest, e)),
                        None => None,
                    }
                },
            }
        } else {
            match esc_byte(s[i + 1]) {
                None => None,
                Some(b) => match sp_string(s, i + 2) {
                    Some((rest, e)) => Some((seq![b] + rest, e)),
                    None => None,
                },
            }
        }
    } else if s[i] < 0x20 {
        None
    } else {
        match sp_string(s, i + 1) {
            Some((rest, e)) => Some((seq![s[i]] + rest, e)),
            None => None,
        }
    }
}

/// The end of the optional fraction part beginning at `ie`; `None` when a
/// fraction point has no digits after it.
pub open spec fn sp_frac_end(s: Seq<u8>, ie: int) -> Option<int> {
    if 0 <= ie < s.len() && s[ie] == 0x2e {
        let k: int = sp_digits(s, ie + 1);
        if k == ie + 1 {
            None
        } else {
            Some(k)
        }
    } else {
        Some(ie)
    }
}

/// The end of the optional exponent part beginning at `fe`; `None` when an
/// exponent marker has no digits after it.
pub open spec fn sp_exp_end(s: Seq<u8>, fe: int) -> Option<int> {
    if 0 <= fe < s.len() && (s[fe] == 0x65 || s[fe] == 0x45) {
        let p: int = if fe + 1 < s.len() && (s[fe + 1] == 0x2b || s[fe + 1] == 0x2d) {
            fe + 2
        } else {
            fe + 1
        };
        let k: int = sp_digits(s, p);
        if k == p {
            None
        } else {
            Some(k)
        }
    } else {
        Some(fe)
    }
}

/// The number whose literal begins at `j`, and the position just past it.
/// A plain integer in signed 64-bit range becomes an integer; any other
/// number keeps its literal text.
pub open spec fn sp_number(s: Seq<u8>, j: int) -> Option<(JsonV, int)> {
    if j < 0 || j >= s.len() {
        None
    } else {
        let neg: bool = s[j] == 0x2d;
        let d0: int = if neg {
            j + 1
        } else {
            j
        };
        if d0 >= s.len() || !is_digit(s[d0]) {
            None
        } else {
            let ie: int = sp_digits(s, d0);
            if s[d0] == 0x30 && ie > d0 + 1 {
                None
            } else {
            match sp_frac_end(s, ie) {
                None => None,
                Some(fe) => match sp_exp_end(s, fe) {
                    None => None,
                    Some(end) => if end == ie {
                        let v: int = dec_val(s, d0, ie);
                        if v <= 0x7fff_ffff_ffff_ffff {
                            Some((JsonV::Int(if neg { -v } else { v }), end))
                        } else {
                            Some((JsonV::NumText(s.subrange(j, end)), end))
                        }
                    } else {
                        Some((JsonV::NumText(s.subrange(j, end)), end))
                    },
                },
            }
            }
        }
    }
}

/// The bytes of the literal `true`.
pub open spec fn lit_true() -> Seq<u8> {
    seq![0x74u8, 0x72u8, 0x75u8, 0x65u8]
}

/// The bytes of the literal `false`.
pub open spec fn lit_false() -> Seq<u8> {
    seq![0x66u8, 0x61u8, 0x6cu8, 0x73u8, 0x65u8]
}

/// The bytes of the literal `null`.
pub open spec fn lit_null() -> Seq<u8> {
    seq![0x6eu8, 0x75u8, 0x6cu8, 0x6cu8]
}

/// The value beginning at or after `i` (leading whitespace skipped), and
/// the position just past it. The fuel bounds recursion depth; every use
/// hands the parser more fuel than the text could consume.
pub open spec fn sp_value(s: Seq<u8>, i: int, f: nat) -> Option<(JsonV, int)>
    decreases f, 0int,
{
    if f == 0 {
        None
    } else {
        let j: int = sp_ws(s, i);
        if j >= s.len() {
            None
        } else if s[j] == 0x22 {
            match sp_string(s, j + 1) {
                Some((t, e)) => Some((JsonV::Str(t), e)),
                None => None,
            }
        } else if s[j] == 0x7b {
            match sp_members(s, j + 1, (f - 1) as nat) {
                Some((fs, e)) => Some((JsonV::Obj(fs), e)),
                None => None,
            }
        } else if s[j] == 0x5b {
            match sp_items(s, j + 1, (f - 1) as nat) {
                Some((its, e)) => Some((JsonV::Arr(its), e)),
                None => None,
            }
        } else if crate::scan::occurs_at(s, lit_true(), j) {
            Some((JsonV::Bool(true), j + 4))
        } else if crate::scan::occurs_at(s, lit_false(), j) {
            Some((JsonV::Bool(false), j + 5))
        } else if crate::scan::occurs_at(s, lit_null(), j) {
            Some((JsonV::Null, j + 4))
        } else {
            sp_number(s, j)
        }
    }
}

/// The items of an array whose opening bracket stands just before `i`,
/// and the position just past its closing bracket.
pub open spec fn sp_items(s: Seq<u8>, i: int, f: nat) -> Option<(Seq<JsonV>, int)>
    decreases f, 2int,
{
    if f == 0 {
        None
    } else {
        let j: int = sp_ws(s, i);
        if j < s.len() && s[j] == 0x5d {
            Some((Seq::empty(), j + 1))
        } else {
            sp_items_ne(s, i, f)
        }
    }
}

/// The items of a non-empty array tail: one value, then either a comma and
/// more items or the closing bracket.
pub open spec fn sp_items_ne(s: Seq<u8>, i: int, f: nat) -> Option<(Seq<JsonV>, int)>
    decreases f, 1int,
{
    if f == 0 {
        None
    } else {
        match sp_value(s, i, f) {
            None => None,
            Some((v, e)) => {
                let k: int = sp_ws(s, e);
                if k < s.len() && s[k] == 0x2c {
                    match sp_items_ne(s, k + 1, (f - 1) as nat) {
                        Some((rest, e2)) => Some((seq![v] + rest, e2)),
                        None => None,
                    }
                } else if k < s.len() && s[k] == 0x5d {
                    Some((seq![v], k + 1))
                } else {
                    None
                }
            },
        }
    }
}

/// The members of an object whose opening brace stands just before `i`,
/// and the position just past its closing brace.
pub open spec fn sp_members(s: Seq<u8>, i: int, f: nat) -> Option<(Seq<(Seq<u8>, JsonV)>, int)>
    decreases f, 2int,
{
    if f == 0 {
        None
    } else {
        let j: int = sp_ws(s, i);
        if j < s.len() && s[j] == 0x7d {
            Some((Seq::empty(), j + 1))
        } else {
            sp_members_ne(s, i, f)
        }
    }
}

/// The members of a non-empty object tail: one key, a colon, one value,
/// then either a comma and more members or the closing brace.
pub open spec fn sp_members_ne(s: Seq<u8>, i: int, f: nat) -> Option<
    (Seq<(Seq<u8>, JsonV)>, int),
>
    decreases f, 1int,
{
    if f == 0 {
        None
    } else {
        let j: int = sp_ws(s, i);
        if j >= s.len() || s[j] != 0x22 {
            None
        } else {
            match sp_string(s, j + 1) {
                None => None,
                Some((key, e)) => {
                    let c: int = sp_ws(s, e);
                    if c >= s.len() || s[c] != 0x3a {
                        None
                    } else {
                        match sp_value(s, c + 1, f) {
                            None => None,
                            Some((v, e2)) => {
                                let k: int = sp_ws(s, e2);
                                if k < s.len() && s[k] == 0x2c {
                                    match sp_members_ne(s, k + 1, (f - 1) as nat) {
                                        Some((rest, e3)) => Some((seq![(key, v)] + rest, e3)),
                                        None => None,
                                    }
                                } else if k < s.len() && s[k] == 0x7d {
                                    Some((seq![(key, v)], k + 1))
                                } else {
                                    None
                                }
                            },
                        }
                    }
                },
            }
        }
    }
}

/// The JSON value a whole text denotes: one value, possibly surrounded by
/// whitespace, spanning the text exactly.
pub open spec fn sp_json(s: Seq<u8>) -> Option<JsonV> {
    match sp_value(s, 0, (s.len() + 1) as nat) {
        Some((v, e)) => if sp_ws(s, e) == s.len() {
            Some(v)
        } else {
            None
        },
        None => None,
    }
}

/// The value under a key in a member sequence: the first member with that
/// key, if any.
pub open spec fn jv_lookup(fields: Seq<(Seq<u8>, JsonV)>, key: Seq<u8>) -> Option<JsonV>
    decreases fields.len(),
{
    if fields.len() == 0 {
        None
    } else if fields[0].0 == key {
        Some(fields[0].1)
    } else {
        jv_lookup(fields.drop_first(), key)
    }
}

/// The value under a key of an object; `None` on any other shape.
pub open spec fn jv_get(j: JsonV, key: Seq<u8>) -> Option<JsonV> {
    match j {
        JsonV::Obj(fields) => jv_lookup(fields, key),
        _ => None,
    }
}

/// The item at an index of an array; `None` on any other shape.
pub open spec fn jv_index(j: JsonV, i: int) -> Option<JsonV> {
    match j {
        JsonV::Arr(items) => if 0 <= i < items.len() {
            Some(items[i])
        } else {
            None
        },
        _ => None,
    }
}

/// A digit run holding only digits.
pub proof fn lemma_sp_digits_run(s: Seq<u8>, i: int)
    requires
        0 <= i <= s.len(),
    ensures
        forall|k: int| i <= k < sp_digits(s, i) ==> is_digit(s[k]),
        sp_digits(s, i) == s.len() || !is_digit(s[sp_digits(s, i)]),
    decreases s.len() - i,
{
    lemma_sp_digits_bounds(s, i);
    if i < s.len() && is_digit(s[i]) {
        lemma_sp_digits_run(s, i + 1);
    }
}

/// The value of a digit run is never negative.
pub proof fn lemma_dec_val_nonneg(s: Seq<u8>, a: int, b: int)
    requires
        forall|k: int| a <= k < b ==> is_digit(s[k]),
        0 <= a,
        b <= s.len(),
    ensures
        dec_val(s, a, b) >= 0,
    decreases b - a,
{
    if a < b {
        lemma_dec_val_nonneg(s, a, b - 1);
    }
}

/// Once a digit-run prefix exceeds a bound, the whole run does.
pub proof fn lemma_dec_val_monotone(s: Seq<u8>, a: int, k: int, b: int)
    requires
        forall|m: int| a <= m < b ==> is_digit(s[m]),
        0 <= a <= k <= b <= s.len(),
    ensures
        dec_val(s, a, b) >= dec_val(s, a, k),
    decreases b - k,
{
    if k < b {
        lemma_dec_val_monotone(s, a, k, b - 1);
        lemma_dec_val_nonneg(s, a, b - 1);
        assert(dec_val(s, a, b) == dec_val(s, a, b - 1) * 10 + (s[b - 1] - 0x30));
        assert(dec_val(s, a, b - 1) * 10 >= dec_val(s, a, b - 1)) by (nonlinear_arith)
            requires
                dec_val(s, a, b - 1) >= 0,
        ;
    }
}

/// Is this byte an ASCII decimal digit?
fn digit(b: u8) -> (r: bool)
    ensures
        r == is_digit(b),
{
    0x30 <= b && b <= 0x39
}

/// The first position at or after `i` holding no whitespace.
pub(crate) fn skip_ws(s: &[u8], i: usize) -> (r: usize)
    requires
        i <= s@.len(),
    ensures
        r as int == sp_ws(s@, i as int),
        i <= r <= s@.len(),
{
    let mut k: usize = i;
    while k < s.len() && (s[k] == 0x20 || s[k] == 0x09 || s[k] == 0x0a || s[k] == 0x0d)
        invariant
            i <= k <= s@.len(),
            sp_ws(s@, i as int) == sp_ws(s@, k as int),
        decreases s@.len() - k,
    {
        k = k + 1;
    }
    k
}

/// The end of the run of decimal digits beginning at `i`.
pub(crate) fn digits_end(s: &[u8], i: usize) -> (r: usize)
    requires
        i <= s@.len(),
    ensures
        r as int == sp_digits(s@, i as int),
        i <= r <= s@.len(),
{
    let mut k: usize = i;
    while k < s.len() && 0x30 <= s[k] && s[k] <= 0x39
        invariant
            i <= k <= s@.len(),
            sp_digits(s@, i as int) == sp_digits(s@, k as int),
        decreases s@.len() - k,
    {
        k = k + 1;
    }
    k
}

/// A copy of the byte range `s[a..b]`.
pub(crate) fn copy_range(s: &[u8], a: usize, b: usize) -> (r: Vec<u8>)
    requires
        a <= b <= s@.len(),
    ensures
        r@ == s@.subrange(a as int, b as int),
{
    let mut t: Vec<u8> = Vec::new();
    let mut k: usize = a;
    while k < b
        invariant
            a <= k <= b <= s@.len(),
            t@.len() == k - a,
            forall|m: int| 0 <= m < t@.len() ==> t@[m] == s@[a + m],
        decreases b - k,
    {
        t.push(s[k]);
        k = k + 1;
    }
    assert(t@ =~= s@.subrange(a as int, b as int));
    t
}

/// The value of one hexadecimal digit.
pub(crate) fn hex_digit(b: u8) -> (r: Option<u32>)
    ensures
        r == hex_val(b),
{
    if 0x30 <= b && b <= 0x39 {
        Some((b - 0x30) as u32)
    } else if 0x61 <= b && b <= 0x66 {
        Some((b - 0x61 + 10) as u32)
    } else if 0x41 <= b && b <= 0x46 {
        Some((b - 0x41 + 10) as u32)
    } else {
        None
    }
}

/// The value of the four hexadecimal digits at `s[i..i+4]`.
fn hex4(s: &[u8], i: usize) -> (r: Option<u32>)
    requires
        i <= s@.len(),
    ensures
        r == sp_hex4(s@, i as int),
{
    if s.len() - i < 4 {
        return None;
    }
    let a = hex_digit(s[i]);
    let b = hex_digit(s[i + 1]);
    let c = hex_digit(s[i + 2]);
    let d = hex_digit(s[i + 3]);
    match (a, b, c, d) {
        (Some(a), Some(b), Some(c), Some(d)) => Some(a * 0x1000 + b * 0x100 + c * 0x10 + d),
        _ => None,
    }
}

/// The byte a single-character escape stands for.
fn esc_char(b: u8) -> (r: Option<u8>)
    ensures
        r == esc_byte(b),
{
    if b == 0x22 {
        Some(0x22u8)
    } else if b == 0x5c {
        Some(0x5cu8)
    } else if b == 0x2f {
        Some(0x2fu8)
    } else if b == 0x62 {
        Some(0x08u8)
    } else if b == 0x66 {
        Some(0x0cu8)
    } else if b == 0x6e {
        Some(0x0au8)
    } else if b == 0x72 {
        Some(0x0du8)
    } else if b == 0x74 {
        Some(0x09u8)
    } else {
        None
    }
}

/// The UTF-8 encoding of a Unicode scalar.
fn encode_scalar_vec(c: u32) -> (r: Vec<u8>)
    requires
        vstd::utf8::is_scalar(c),
    ensures
        r@ == vstd::utf8::encode_scalar(c),
{
    if c <= 0x7F {
        let v = vec![(c & 0x7F) as u8];
        assert(v@ =~= vstd::utf8::encode_scalar(c));
        v
    } else if c <= 0x7FF {
        let v = vec![0xC0u8 | ((c >> 6) & 0x1F) as u8, 0x80u8 | (c & 0x3F) as u8];
        assert(v@ =~= vstd::utf8::encode_scalar(c));
        v
    } else if c <= 0xFFFF {
        let v = vec![
            0xE0u8 | ((c >> 12) & 0x0F) as u8,
            0x80u8 | ((c >> 6) & 0x3F) as u8,
            0x80u8 | (c & 0x3F) as u8,
        ];
        assert(v@ =~= vstd::utf8::encode_scalar(c));
        v
    } else {
        let v = vec![
            0xF0u8 | ((c >> 18) & 0x7) as u8,
            0x80u8 | ((c >> 12) & 0x3F) as u8,
            0x80u8 | ((c >> 6) & 0x3F) as u8,
            0x80u8 | (c & 0x3F) as u8,
        ];
        assert(v@ =~= vstd::utf8::encode_scalar(c));
        v
    }
}

/// Parse a string literal's content, the opening quote already consumed.
fn p_string(s: &[u8], i: usize) -> (r: Option<(Vec<u8>, usize)>)
    requires
        i <= s@.len(),
    ensures
        match r {
            Some((t, e)) => sp_string(s@, i as int) == Some((t@, e as int)) && i < e <= s@.len(),
            None => sp_string(s@, i as int) is None,
        },
    decreases s@.len() - i,
{
    if i >= s.len() {
        return None;
    }
    let b = s[i];
    if b == 0x22 {
        let t: Vec<u8> = Vec::new();
        assert(t@ =~= Seq::<u8>::empty());
        return Some((t, i + 1));
    }
    if b == 0x5c {
        if s.len() - i < 2 {
            return None;
        }
        let e1 = s[i + 1];
        if e1 == 0x75 {
            match hex4(s, i + 2) {
                None => None,
                Some(cp) => {
                    assert(i + 6 <= s@.len());
                    if 0xD800 <= cp && cp < 0xDC00 {
                        if s.len() - i >= 12 && s[i + 6] == 0x5c && s[i + 7] == 0x75 {
                            match hex4(s, i + 8) {
                                None => None,
                                Some(lo) => {
                                    if 0xDC00 <= lo && lo < 0xE000 {
                                        match p_string(s, i + 12) {
                                            None => None,
                                            Some((rest, e)) => {
                                                let sc: u32 = 0x10000 + (cp - 0xD800) * 0x400 + (
                                                lo - 0xDC00);
                                                assert(sc == surrogate_scalar(cp, lo));
                                                let mut pre = encode_scalar_vec(sc);
                                                let mut rest = rest;
                                                pre.append(&mut rest);
                                                Some((pre, e))
                                            },
                                        }
                                    } else {
                                        None
                                    }
                                },
                            }
                        } else {
                            None
                        }
                    } else if 0xDC00 <= cp && cp < 0xE000 {
                        None
                    } else {
                        match p_string(s, i + 6) {
                            None => None,
                            Some((rest, e)) => {
                                let mut pre = encode_scalar_vec(cp);
                                let mut rest = rest;
                                pre.append(&mut rest);
                                Some((pre, e))
                            },
                        }
                    }
                },
            }
        } else {
            match esc_char(e1) {
                None => None,
                Some(bb) => match p_string(s, i + 2) {
                    None => None,
                    Some((rest, e)) => {
                        let mut rest = rest;
                        rest.insert(0, bb);
                        assert(rest@ =~= seq![bb] + rest@.drop_first());
                        Some((rest, e))
                    },
                },
            }
        }
    } else if b < 0x20 {
        None
    } else {
        match p_string(s, i + 1) {
            None => None,
            Some((rest, e)) => {
                let mut rest = rest;
                rest.insert(0, b);
                assert(rest@ =~= seq![b] + rest@.drop_first());
                Some((rest, e))
            },
        }
    }
}

/// Parse a number literal beginning at `j`.
fn p_number(s: &[u8], j: usize) -> (r: Option<(Json, usize)>)
    requires
        j <= s@.len(),
    ensures
        match r {
            Some((v, e)) => sp_number(s@, j as int) == Some((v@, e as int)) && j < e <= s@.len(),
            None => sp_number(s@, j as int) is None,
        },
{
    if j >= s.len() {
        return None;
    }
    let neg = s[j] == 0x2d;
    let d0: usize = if neg {
        j + 1
    } else {
        j
    };
    if d0 >= s.len() {
        return None;
    }
    if !digit(s[d0]) {
        return None;
    }
    let ie = digits_end(s, d0);
    proof {
        lemma_sp_digits_run(s@, d0 as int);
    }
    if s[d0] == 0x30 && ie > d0 + 1 {
        return None;
    }
    let fe_opt: Option<usize> = if ie < s.len() && s[ie] == 0x2e {
        let k = digits_end(s, ie + 1);
        if k == ie + 1 {
            None
        } else {
            Some(k)
        }
    } else {
        Some(ie)
    };
    match fe_opt {
        None => {
            assert(sp_number(s@, j as int) is None);
            None
        },
        Some(fe) => {
            let end_opt: Option<usize> = if fe < s.len() && (s[fe] == 0x65 || s[fe] == 0x45) {
                let p: usize = if fe + 1 < s.len() && (s[fe + 1] == 0x2b || s[fe + 1] == 0x2d) {
                    fe + 2
                } else {
                    fe + 1
                };
                let k = digits_end(s, p);
                if k == p {
                    None
                } else {
                    Some(k)
                }
            } else {
                Some(fe)
            };
            match end_opt {
                None => {
                    assert(sp_number(s@, j as int) is None);
                    None
                },
                Some(end) => {
                    if end == ie {
                        let mut v: u64 = 0;
                        let mut big = false;
                        let mut k: usize = d0;
                        while k < ie
                            invariant
                                d0 <= k <= ie <= s@.len(),
                                sp_digits(s@, d0 as int) == ie,
                                forall|t: int| d0 <= t < ie ==> is_digit(s@[t]),
                                !big ==> v as int == dec_val(s@, d0 as int, k as int) && v as int
                                    <= 0x7fff_ffff_ffff_ffff,
                                big ==> dec_val(s@, d0 as int, k as int) > 0x7fff_ffff_ffff_ffff,
                            decreases ie - k,
                        {
                            let d: u64 = (s[k] - 0x30) as u64;
                            if big {
                                proof {
                                    lemma_dec_val_nonneg(s@, d0 as int, k as int);
                                    assert(dec_val(s@, d0 as int, k + 1) == dec_val(
                                        s@,
                                        d0 as int,
                                        k as int,
                                    ) * 10 + (s@[k as int] - 0x30));
                                    assert(dec_val(s@, d0 as int, k as int) * 10 >= dec_val(
                                        s@,
                                        d0 as int,
                                        k as int,
                                    )) by (nonlinear_arith)
                                        requires
                                            dec_val(s@, d0 as int, k as int) >= 0,
                                    ;
                                }
                            } else if v > (0x7fff_ffff_ffff_ffffu64 - d) / 10 {
                                proof {
                                    let q: int = (0x7fff_ffff_ffff_ffff - d) / 10;
                                    assert(v as int >= q + 1);
                                    assert(q * 10 <= 0x7fff_ffff_ffff_ffff - d < q * 10 + 10)
                                        by (nonlinear_arith)
                                        requires
                                            q == (0x7fff_ffff_ffff_ffff - d) / 10,
                                            0 <= d <= 9,
                                    ;
                                    assert(v as int * 10 >= (q + 1) * 10) by (nonlinear_arith)
                                        requires
                                            v as int >= q + 1,
                                    ;
                                    assert(dec_val(s@, d0 as int, k + 1) == dec_val(
                                        s@,
                                        d0 as int,
                                        k as int,
                                    ) * 10 + (s@[k as int] - 0x30));
                                }
                                big = true;
                            } else {
                                proof {
                                    let q: int = (0x7fff_ffff_ffff_ffff - d) / 10;
                                    assert(v as int <= q);
                                    assert(q * 10 <= 0x7fff_ffff_ffff_ffff - d) by (nonlinear_arith)
                                        requires
                                            q == (0x7fff_ffff_ffff_ffff - d) / 10,
                                            0 <= d <= 9,
                                    ;
                                    assert(v as int * 10 <= q * 10) by (nonlinear_arith)
                                        requires
                                            v as int <= q,
                                    ;
                                    assert(dec_val(s@, d0 as int, k + 1) == dec_val(
                                        s@,
                                        d0 as int,
                                        k as int,
                                    ) * 10 + (s@[k as int] - 0x30));
                                }
                                v = v * 10 + d;
                            }
                            k = k + 1;
                        }
                        if big {
                            proof {
                                lemma_dec_val_monotone(s@, d0 as int, ie as int, ie as int);
                            }
                            let t = copy_range(s, j, end);
                            return Some((Json::NumText(t), end));
                        }
                        let out: Json = if neg {
                            Json::Int(-(v as i64))
                        } else {
                            Json::Int(v as i64)
                        };
                        Some((out, end))
                    } else {
                        let t = copy_range(s, j, end);
                        Some((Json::NumText(t), end))
                    }
                },
            }
        },
    }
}

/// Parse one JSON value beginning at or after `i`.
fn p_value(s: &[u8], i: usize, Ghost(f): Ghost<nat>) -> (r: Option<(Json, usize)>)
    requires
        i <= s@.len(),
        f >= s@.len() - i + 1,
    ensures
        match r {
            Some((v, e)) => sp_value(s@, i as int, f) == Some((v@, e as int)) && i < e <= s@.len(),
            None => sp_value(s@, i as int, f) is None,
        },
    decreases f, 0int,
{
    let j = skip_ws(s, i);
    if j >= s.len() {
        return None;
    }
    let b = s[j];
    if b == 0x22 {
        match p_string(s, j + 1) {
            None => None,
            Some((t, e)) => Some((Json::Str(t), e)),
        }
    } else if b == 0x7b {
        match p_members(s, j + 1, Ghost((f - 1) as nat)) {
            None => None,
            Some((fs, e)) => Some((Json::Obj(fs), e)),
        }
    } else if b == 0x5b {
        match p_items(s, j + 1, Ghost((f - 1) as nat)) {
            None => None,
            Some((its, e)) => Some((Json::Arr(its), e)),
        }
    } else {
        let lt: Vec<u8> = vec![0x74u8, 0x72u8, 0x75u8, 0x65u8];
        let lf: Vec<u8> = vec![0x66u8, 0x61u8, 0x6cu8, 0x73u8, 0x65u8];
        let ln: Vec<u8> = vec![0x6eu8, 0x75u8, 0x6cu8, 0x6cu8];
        proof {
            assert(lt@ =~= lit_true());
            assert(lf@ =~= lit_false());
            assert(ln@ =~= lit_null());
        }
        if crate::scan::starts_with_at(s, lt.as_slice(), j) {
            Some((Json::Bool(true), j + 4))
        } else if crate::scan::starts_with_at(s, lf.as_slice(), j) {
            Some((Json::Bool(false), j + 5))
        } else if crate::scan::starts_with_at(s, ln.as_slice(), j) {
            Some((Json::Null, j + 4))
        } else {
            p_number(s, j)
        }
    }
}

/// Parse the items of an array, the opening bracket already consumed.
fn p_items(s: &[u8], i: usize, Ghost(f): Ghost<nat>) -> (r: Option<(Vec<Json>, usize)>)
    requires
        i <= s@.len(),
        f >= s@.len() - i + 1,
    ensures
        match r {
            Some((v, e)) => sp_items(s@, i as int, f) == Some((jv_of_items(v@), e as int)) && i < e
                <= s@.len(),
            None => sp_items(s@, i as int, f) is None,
        },
    decreases f, 2int,
{
    let j = skip_ws(s, i);
    if j < s.len() && s[j] == 0x5d {
        let v: Vec<Json> = Vec::new();
        assert(jv_of_items(v@) =~= Seq::<JsonV>::empty());
        return Some((v, j + 1));
    }
    p_items_ne(s, i, Ghost(f))
}

/// Parse the tail of a non-empty array: a value, then a comma and more
/// items or the closing bracket.
fn p_items_ne(s: &[u8], i: usize, Ghost(f): Ghost<nat>) -> (r: Option<(Vec<Json>, usize)>)
    requires
        i <= s@.len(),
        f >= s@.len() - i + 1,
    ensures
        match r {
            Some((v, e)) => sp_items_ne(s@, i as int, f) == Some((jv_of_items(v@), e as int)) && i
                < e <= s@.len(),
            None => sp_items_ne(s@, i as int, f) is None,
        },
    decreases f, 1int,
{
    match p_value(s, i, Ghost(f)) {
        None => None,
        Some((v, e)) => {
            let k = skip_ws(s, e);
            if k < s.len() && s[k] == 0x2c {
                match p_items_ne(s, k + 1, Ghost((f - 1) as nat)) {
                    None => None,
                    Some((rest, e2)) => {
                        let mut rest = rest;
                        let ghost tail = rest@;
                        rest.insert(0, v);
                        proof {
                            broadcast use lemma_jv_of_items;

                            assert(rest@ =~= seq![v] + tail);
                            assert(jv_of_items(rest@) =~= seq![jv_of(v)] + jv_of_items(tail));
                        }
                        Some((rest, e2))
                    },
                }
            } else if k < s.len() && s[k] == 0x5d {
                let mut out: Vec<Json> = Vec::new();
                out.push(v);
                proof {
                    broadcast use lemma_jv_of_items;

                    assert(jv_of_items(out@) =~= seq![jv_of(v)]);
                }
                Some((out, k + 1))
            } else {
                None
            }
        },
    }
}

/// Parse the members of an object, the opening brace already consumed.
fn p_members(s: &[u8], i: usize, Ghost(f): Ghost<nat>) -> (r: Option<
    (Vec<(Vec<u8>, Json)>, usize),
>)
    requires
        i <= s@.len(),
        f >= s@.len() - i + 1,
    ensures
        match r {
            Some((v, e)) => sp_members(s@, i as int, f) == Some((jv_of_fields(v@), e as int)) && i
                < e <= s@.len(),
            None => sp_members(s@, i as int, f) is None,
        },
    decreases f, 2int,
{
    let j = skip_ws(s, i);
    if j < s.len() && s[j] == 0x7d {
        let v: Vec<(Vec<u8>, Json)> = Vec::new();
        assert(jv_of_fields(v@) =~= Seq::<(Seq<u8>, JsonV)>::empty());
        return Some((v, j + 1));
    }
    p_members_ne(s, i, Ghost(f))
}

/// Parse the tail of a non-empty object: a key, a colon, a value, then a
/// comma and more members or the closing brace.
fn p_members_ne(s: &[u8], i: usize, Ghost(f): Ghost<nat>) -> (r: Option<
    (Vec<(Vec<u8>, Json)>, usize),
>)
    requires
        i <= s@.len(),
        f >= s@.len() - i + 1,
    ensures
        match r {
            Some((v, e)) => sp_members_ne(s@, i as int, f) == Some((jv_of_fields(v@), e as int))
                && i < e <= s@.len(),
            None => sp_members_ne(s@, i as int, f) is None,
        },
    decreases f, 1int,
{
    let j = skip_ws(s, i);
    if j >= s.len() {
        return None;
    }
    if s[j] != 0x22 {
        return None;
    }
    match p_string(s, j + 1) {
        None => None,
        Some((key, e)) => {
            let c = skip_ws(s, e);
            if c >= s.len() {
                return None;
            }
            if s[c] != 0x3a {
                return None;
            }
            match p_value(s, c + 1, Ghost(f)) {
                None => None,
                Some((v, e2)) => {
                    let k = skip_ws(s, e2);
                    if k < s.len() && s[k] == 0x2c {
                        match p_members_ne(s, k + 1, Ghost((f - 1) as nat)) {
                            None => None,
                            Some((rest, e3)) => {
                                let mut rest = rest;
                                let ghost tail = rest@;
                                let ghost kv = key@;
                                let ghost vv = jv_of(v);
                                rest.insert(0, (key, v));
                                proof {
                                    broadcast use lemma_jv_of_fields;

                                    assert(jv_of_fields(rest@) =~= seq![(kv, vv)] + jv_of_fields(
                                        tail,
                                    ));
                                }
                                Some((rest, e3))
                            },
                        }
                    } else if k < s.len() && s[k] == 0x7d {
                        let ghost kv = key@;
                        let ghost vv = jv_of(v);
                        let mut out: Vec<(Vec<u8>, Json)> = Vec::new();
                        out.push((key, v));
                        proof {
                            broadcast use lemma_jv_of_fields;

                            assert(jv_of_fields(out@) =~= seq![(kv, vv)]);
                        }
                        Some((out, k + 1))
                    } else {
                        None
                    }
                },
            }
        },
    }
}

/// Parse a whole text as one JSON value, possibly surrounded by
/// whitespace and spanning the text exactly.
pub fn parse_json(s: &[u8]) -> (r: Option<Json>)
    ensures
        match r {
            Some(j) => sp_json(s@) == Some(j@),
            None => sp_json(s@) is None,
        },
{
    match p_value(s, 0, Ghost((s@.len() + 1) as nat)) {
        None => None,
        Some((v, e)) => {
            let k = skip_ws(s, e);
            if k == s.len() {
                Some(v)
            } else {
                None
            }
        },
    }
}

impl Json {
    /// The value under a key of this object: the first member with that
    /// key. `None` when the key is absent or this is no object.
    pub fn get<'a>(&'a self, key: &[u8]) -> (r: Option<&'a Json>)
        ensures
            match r {
                Some(x) => jv_get(self@, key@) == Some(x@),
                None => jv_get(self@, key@) is None,
            },
    {
        match self {
            Json::Obj(fields) => {
                let ghost all = jv_of_fields(fields@);
                proof {
                    lemma_jv_of_fields(fields@);
                    assert(all.skip(0) =~= all);
                }
                let mut i: usize = 0;
                while i < fields.len()
                    invariant
                        i <= fields@.len(),
                        all == jv_of_fields(fields@),
                        all.len() == fields@.len(),
                        self@ == JsonV::Obj(all),
                        jv_get(self@, key@) == jv_lookup(all.skip(i as int), key@),
                    decreases fields@.len() - i,
                {
                    proof {
                        lemma_jv_of_fields(fields@);
                        assert(all.skip(i as int)[0] == (fields@[i as int].0@, jv_of(
                            fields@[i as int].1,
                        )));
                        assert(all.skip(i as int).drop_first() =~= all.skip(i + 1));
                    }
                    if crate::scan::bytes_eq(fields[i].0.as_slice(), key) {
                        proof {
                            assert(jv_lookup(all.skip(i as int), key@) == Some(
                                jv_of(fields@[i as int].1),
                            ));
                        }
                        return Some(&fields[i].1);
                    }
                    i = i + 1;
                }
                proof {
                    assert(all.skip(i as int) =~= Seq::<(Seq<u8>, JsonV)>::empty());
                }
                None
            },
            _ => None,
        }
    }

    /// The item at an index of this array. `None` when the index is out of
    /// range or this is no array.
    pub fn get_index<'a>(&'a self, i: usize) -> (r: Option<&'a Json>)
        ensures
            match r {
                Some(x) => jv_index(self@, i as int) == Some(x@),
                None => jv_index(self@, i as int) is None,
            },
    {
        match self {
            Json::Arr(items) => {
                proof {
                    lemma_jv_of_items(items@);
                }
                if i < items.len() {
                    Some(&items[i])
                } else {
                    None
                }
            },
            _ => None,
        }
    }

    /// The bytes of this string value; `None` on any other shape.
    pub fn str_bytes<'a>(&'a self) -> (r: Option<&'a Vec<u8>>)
        ensures
            match r {
                Some(t) => self@ == JsonV::Str(t@),
                None => !(self@ is Str),
            },
    {
        match self {
            Json::Str(t) => Some(t),
            _ => None,
        }
    }

    /// This number as an unsigned 64-bit integer; `None` when it is
    /// negative, fractional, out of range, or no number at all.
    pub fn as_u64(&self) -> (r: Option<u64>)
        ensures
            match r {
                Some(n) => self@ == JsonV::Int(n as int),
                None => forall|n: u64| self@ != JsonV::Int(n as int),
            },
    {
        match self {
            Json::Int(n) => {
                if *n >= 0 {
                    Some(*n as u64)
                } else {
                    None
                }
            },
            _ => None,
        }
    }

    /// The literal text of this non-integer number; `None` on any other
    /// shape.
    pub fn num_text<'a>(&'a self) -> (r: Option<&'a Vec<u8>>)
        ensures
            match r {
                Some(t) => self@ == JsonV::NumText(t@),
                None => !(self@ is NumText),
            },
    {
        match self {
            Json::NumText(t) => Some(t),
            _ => None,
        }
    }

    /// The items of this array; `None` on any other shape.
    pub fn arr_items<'a>(&'a self) -> (r: Option<&'a Vec<Json>>)
        ensures
            match r {
                Some(items) => self@ == JsonV::Arr(jv_of_items(items@)),
                None => !(self@ is Arr),
            },
    {
        match self {
            Json::Arr(items) => Some(items),
            _ => None,
        }
    }
}

} // verus!
