//! The cipher program extractor: recover, from the text of the platform's
//! versioned client script, the ordered sequence of string operations it
//! applies to obfuscate stream signatures. Nothing here goes by a name:
//! every identifier in the script changes with each deployment, so the
//! decoder function, its helper object and the three operations are all
//! found by the shape of their code alone.

use vstd::prelude::*;
use crate::cipher::CipherFunction;
use crate::info::ErrorExtractor;
use crate::json::dec_val;
use crate::json::is_digit;
use crate::json::sp_digits;
use crate::json::sp_ws;
use crate::scan::find_from;
use crate::scan::lemma_sp_find_none;
use crate::scan::lemma_sp_find_some;
use crate::scan::occurs_at;
use crate::scan::sp_find;
use crate::scan::starts_with_at;

verus! {

/// A byte an identifier in the script may hold: a letter, a digit, `$`
/// or `_`.
pub open spec fn is_ident(b: u8) -> bool {
    (0x30 <= b <= 0x39) || (0x41 <= b <= 0x5a) || (0x61 <= b <= 0x7a) || b == 0x24 || b == 0x5f
}

/// The end of the identifier run beginning at `i`.
pub open spec fn sp_ident_end(s: Seq<u8>, i: int) -> int
    decreases s.len() - i,
{
    if 0 <= i < s.len() && is_ident(s[i]) {
        sp_ident_end(s, i + 1)
    } else {
        i
    }
}

/// The end of the identifier run beginning at `i`.
fn ident_end(s: &[u8], i: usize) -> (r: usize)
    requires
        i <= s@.len(),
    ensures
        r as int == sp_ident_end(s@, i as int),
        i <= r <= s@.len(),
{
    let mut k: usize = i;
    while k < s.len() && ((0x30 <= s[k] && s[k] <= 0x39) || (0x41 <= s[k] && s[k] <= 0x5a) || (0x61
        <= s[k] && s[k] <= 0x7a) || s[k] == 0x24 || s[k] == 0x5f)
        invariant
            i <= k <= s@.len(),
            sp_ident_end(s@, i as int) == sp_ident_end(s@, k as int),
        decreases s@.len() - k,
    {
        k = k + 1;
    }
    k
}

/// The bytes of `=function(`.
pub open spec fn eq_function_lit() -> Seq<u8> {
    seq![0x3du8, 0x66u8, 0x75u8, 0x6eu8, 0x63u8, 0x74u8, 0x69u8, 0x6fu8, 0x6eu8, 0x28u8]
}

/// The bytes of `.split("")`.
pub open spec fn split_call_lit() -> Seq<u8> {
    seq![0x2eu8, 0x73u8, 0x70u8, 0x6cu8, 0x69u8, 0x74u8, 0x28u8, 0x22u8, 0x22u8, 0x29u8]
}

/// The bytes of `function(`.
pub open spec fn function_lit() -> Seq<u8> {
    seq![0x66u8, 0x75u8, 0x6eu8, 0x63u8, 0x74u8, 0x69u8, 0x6fu8, 0x6eu8, 0x28u8]
}

/// The bytes of `var `.
pub open spec fn var_space_lit() -> Seq<u8> {
    seq![0x76u8, 0x61u8, 0x72u8, 0x20u8]
}

/// The decoder function's shape at position `p`: an assignment of a
/// one-parameter function whose body begins by splitting that parameter
/// into characters — `=function(x){x=x.split("")` for some identifier
/// `x`. Yields the position just past the split call, where the decoder's
/// statements begin.
pub open spec fn sp_decoder_at(s: Seq<u8>, p: int) -> Option<int> {
    if !occurs_at(s, eq_function_lit(), p) {
        None
    } else {
        let a = p + 10;
        let ae = sp_ident_end(s, a);
        let l = ae - a;
        if l <= 0 {
            None
        } else if ae + 2 > s.len() || s[ae] != 0x29 || s[ae + 1] != 0x7b {
            None
        } else {
            let param = s.subrange(a, ae);
            if occurs_at(s, param, ae + 2) && ae + 2 + l < s.len() && s[ae + 2 + l] == 0x3d
                && occurs_at(s, param, ae + 3 + l) && occurs_at(
                s,
                split_call_lit(),
                ae + 3 + 2 * l,
            ) {
                Some(ae + 13 + 2 * l)
            } else {
                None
            }
        }
    }
}

/// Match the decoder shape at one position.
fn match_decoder(s: &[u8], p: usize) -> (r: Option<usize>)
    requires
        p <= s@.len(),
    ensures
        match r {
            Some(bs) => sp_decoder_at(s@, p as int) == Some(bs as int) && bs <= s@.len(),
            None => sp_decoder_at(s@, p as int) is None,
        },
{
    let eqf: Vec<u8> = vec![
        0x3du8,
        0x66u8,
        0x75u8,
        0x6eu8,
        0x63u8,
        0x74u8,
        0x69u8,
        0x6fu8,
        0x6eu8,
        0x28u8,
    ];
    proof {
        assert(eqf@ =~= eq_function_lit());
    }
    let spl: Vec<u8> = vec![
        0x2eu8,
        0x73u8,
        0x70u8,
        0x6cu8,
        0x69u8,
        0x74u8,
        0x28u8,
        0x22u8,
        0x22u8,
        0x29u8,
    ];
    proof {
        assert(spl@ =~= split_call_lit());
    }
    if !starts_with_at(s, eqf.as_slice(), p) {
        return None;
    }
    let n = s.len();
    proof {
        assert(eq_function_lit().len() == 10);
        assert(p + 10 <= n);
    }
    let a = p + 10;
    let ae = ident_end(s, a);
    let l = ae - a;
    if l == 0 {
        return None;
    }
    if s.len() - ae < 2 || s[ae] != 0x29 || s[ae + 1] != 0x7b {
        return None;
    }
    let param = &s[a..ae];
    proof {
        assert(param@ == s@.subrange(a as int, ae as int));
    }
    if starts_with_at(s, param, ae + 2) && ae + 2 + l < s.len() && s[ae + 2 + l] == 0x3d
        && starts_with_at(s, param, ae + 3 + l) && starts_with_at(s, spl.as_slice(), ae + 3 + 2
        * l) {
        Some(ae + 13 + 2 * l)
    } else {
        None
    }
}

/// How many positions in `[from, len)` carry the decoder shape.
pub open spec fn sp_decoder_count(s: Seq<u8>, from: int) -> int
    decreases s.len() - from,
{
    if from < 0 || from >= s.len() {
        0
    } else {
        (if sp_decoder_at(s, from) is Some {
            1int
        } else {
            0int
        }) + sp_decoder_count(s, from + 1)
    }
}

/// The first position at or after `from` carrying the decoder shape.
pub open spec fn sp_decoder_first(s: Seq<u8>, from: int) -> Option<int>
    decreases s.len() - from,
{
    if from < 0 || from >= s.len() {
        None
    } else if sp_decoder_at(s, from) is Some {
        Some(from)
    } else {
        sp_decoder_first(s, from + 1)
    }
}

/// Find the script's decoder function, demanding exactly one structural
/// match over the whole text; yield where its statements begin.
fn find_decoder(s: &[u8]) -> (r: Option<usize>)
    ensures
        match r {
            Some(bs) => sp_decoder_count(s@, 0) == 1 && (match sp_decoder_first(s@, 0) {
                Some(p) => sp_decoder_at(s@, p) == Some(bs as int),
                None => false,
            }) && bs <= s@.len(),
            None => sp_decoder_count(s@, 0) != 1,
        },
{
    let mut p: usize = 0;
    let mut cnt: usize = 0;
    let mut body: Option<usize> = None;
    while p < s.len()
        invariant
            p <= s@.len(),
            cnt <= p,
            sp_decoder_count(s@, 0) == cnt + sp_decoder_count(s@, p as int),
            cnt == 0 ==> body is None && sp_decoder_first(s@, 0) == sp_decoder_first(
                s@,
                p as int,
            ),
            cnt > 0 ==> (match (body, sp_decoder_first(s@, 0)) {
                (Some(bs), Some(q)) => sp_decoder_at(s@, q) == Some(bs as int) && bs <= s@.len(),
                _ => false,
            }),
        decreases s@.len() - p,
    {
        match match_decoder(s, p) {
            Some(bs) => {
                if cnt == 0 {
                    body = Some(bs);
                }
                cnt = cnt + 1;
            },
            None => {
            },
        }
        p = p + 1;
    }
    if cnt == 1 {
        body
    } else {
        None
    }
}

/// A statement boundary followed by a member access — `;name.` — names
/// the helper object the decoder calls into.
pub open spec fn sp_helper_at(s: Seq<u8>, q: int) -> Option<Seq<u8>> {
    if 0 <= q < s.len() && s[q] == 0x3b {
        let ie = sp_ident_end(s, q + 1);
        if ie > q + 1 && ie < s.len() && s[ie] == 0x2e {
            Some(s.subrange(q + 1, ie))
        } else {
            None
        }
    } else {
        None
    }
}

/// The helper object's name: the first `;name.` in `[q, be)`.
pub open spec fn sp_find_helper(s: Seq<u8>, q: int, be: int) -> Option<Seq<u8>>
    decreases be - q,
{
    if q < 0 || q >= be {
        None
    } else {
        match sp_helper_at(s, q) {
            Some(nm) => Some(nm),
            None => sp_find_helper(s, q + 1, be),
        }
    }
}

/// Find the helper object's name inside the decoder's statements.
fn find_helper(s: &[u8], q0: usize, be: usize) -> (r: Option<Vec<u8>>)
    requires
        q0 <= be <= s@.len(),
    ensures
        match r {
            Some(nm) => sp_find_helper(s@, q0 as int, be as int) == Some(nm@),
            None => sp_find_helper(s@, q0 as int, be as int) is None,
        },
{
    let mut q: usize = q0;
    while q < be
        invariant
            q0 <= q <= be <= s@.len(),
            sp_find_helper(s@, q0 as int, be as int) == sp_find_helper(s@, q as int, be as int),
        decreases be - q,
    {
        if s[q] == 0x3b {
            let ie = ident_end(s, q + 1);
            if ie > q + 1 && ie < s.len() && s[ie] == 0x2e {
                let nm = crate::json::copy_range(s, q + 1, ie);
                return Some(nm);
            }
        }
        q = q + 1;
    }
    None
}

/// Does the pattern occur anywhere inside `s[lo..hi]`?
pub open spec fn contains_range(s: Seq<u8>, lo: int, hi: int, pat: Seq<u8>) -> bool {
    exists|q: int| lo <= q && q + pat.len() <= hi && occurs_at(s, pat, q)
}

/// Scan a range for a pattern.
fn contains_in(s: &[u8], lo: usize, hi: usize, pat: &[u8]) -> (r: bool)
    requires
        lo <= hi <= s@.len(),
        pat@.len() > 0,
    ensures
        r == contains_range(s@, lo as int, hi as int, pat@),
{
    let mut q: usize = lo;
    while q < hi && hi - q >= pat.len()
        invariant
            lo <= q <= hi <= s@.len(),
            forall|m: int| lo <= m < q ==> !(m + pat@.len() <= hi && occurs_at(s@, pat@, m)),
        decreases hi - q,
    {
        if starts_with_at(s, pat, q) {
            return true;
        }
        q = q + 1;
    }
    proof {
        assert forall|m: int| lo <= m && m + pat@.len() <= hi implies !occurs_at(s@, pat@, m) by {
            if m >= q {
                assert(m + pat@.len() > hi || m >= hi);
            }
        }
    }
    false
}

/// One member of the helper object: an identifier, a colon, a function
/// head, and a brace-enclosed body with no nested braces. Yields the
/// name, the body's bounds, and the position just past the closing brace.
pub open spec fn sp_member(s: Seq<u8>, m: int) -> Option<(Seq<u8>, int, int, int)> {
    let m0 = sp_ws(s, m);
    let ne = sp_ident_end(s, m0);
    if ne == m0 {
        None
    } else if !(ne < s.len() && s[ne] == 0x3a) {
        None
    } else if !occurs_at(s, function_lit(), ne + 1) {
        None
    } else {
        match sp_find(s, seq![0x29u8], ne + 10) {
            None => None,
            Some(pp) => if pp + 1 < s.len() && s[pp + 1] == 0x7b {
                match sp_find(s, seq![0x7du8], pp + 2) {
                    None => None,
                    Some(bh) => Some((s.subrange(m0, ne), pp + 2, bh, bh + 1)),
                }
            } else {
                None
            },
        }
    }
}

/// Parse one member of the helper object.
fn member(s: &[u8], m: usize) -> (r: Option<(Vec<u8>, usize, usize, usize)>)
    requires
        m <= s@.len(),
    ensures
        match r {
            Some((nm, lo, hi, e)) => sp_member(s@, m as int) == Some(
                (nm@, lo as int, hi as int, e as int),
            ) && m <= e <= s@.len() && lo <= hi < e,
            None => sp_member(s@, m as int) is None,
        },
{
    let fnl: Vec<u8> = vec![0x66u8, 0x75u8, 0x6eu8, 0x63u8, 0x74u8, 0x69u8, 0x6fu8, 0x6eu8, 0x28u8];
    proof {
        assert(fnl@ =~= function_lit());
    }
    let m0 = crate::json::skip_ws(s, m);
    let ne = ident_end(s, m0);
    if ne == m0 {
        return None;
    }
    if !(ne < s.len() && s[ne] == 0x3a) {
        return None;
    }
    if !starts_with_at(s, fnl.as_slice(), ne + 1) {
        return None;
    }
    let n = s.len();
    proof {
        assert(function_lit().len() == 9);
        assert(ne + 10 <= n);
    }
    let close: Vec<u8> = vec![0x29u8];
    let brace: Vec<u8> = vec![0x7du8];
    proof {
        assert(close@ =~= seq![0x29u8]);
        assert(brace@ =~= seq![0x7du8]);
    }
    match find_from(s, close.as_slice(), ne + 10) {
        None => {
            proof {
                lemma_sp_find_none(s@, seq![0x29u8], (ne + 10) as int);
            }
            None
        },
        Some(pp) => {
            proof {
                lemma_sp_find_some(s@, seq![0x29u8], (ne + 10) as int, pp as int);
            }
            if pp + 1 < s.len() && s[pp + 1] == 0x7b {
                match find_from(s, brace.as_slice(), pp + 2) {
                    None => {
                        proof {
                            lemma_sp_find_none(s@, seq![0x7du8], (pp + 2) as int);
                        }
                        None
                    },
                    Some(bh) => {
                        proof {
                            lemma_sp_find_some(s@, seq![0x7du8], (pp + 2) as int, bh as int);
                        }
                        let nm = crate::json::copy_range(s, m0, ne);
                        Some((nm, pp + 2, bh, bh + 1))
                    },
                }
            } else {
                None
            }
        },
    }
}

/// The role a helper member plays, read off the shape of its body: an
/// in-place reversal, an array-splice removal, or — showing neither —
/// the index swap. A body showing both shapes is ambiguous.
#[derive(Debug, Clone, Copy, PartialEq, Eq, Structural)]
pub enum OpRole {
    Reverse,
    Slice,
    Swap,
}

/// The bytes of `reverse`.
pub open spec fn reverse_lit() -> Seq<u8> {
    seq![0x72u8, 0x65u8, 0x76u8, 0x65u8, 0x72u8, 0x73u8, 0x65u8]
}

/// The bytes of `splice`.
pub open spec fn splice_lit() -> Seq<u8> {
    seq![0x73u8, 0x70u8, 0x6cu8, 0x69u8, 0x63u8, 0x65u8]
}

/// Classify a member body by its shape.
pub open spec fn sp_role(s: Seq<u8>, lo: int, hi: int) -> Option<OpRole> {
    let hr = contains_range(s, lo, hi, reverse_lit());
    let hs = contains_range(s, lo, hi, splice_lit());
    if hr && !hs {
        Some(OpRole::Reverse)
    } else if hs && !hr {
        Some(OpRole::Slice)
    } else if !hr && !hs {
        Some(OpRole::Swap)
    } else {
        None
    }
}

/// Classify a member body by its shape.
fn role_of(s: &[u8], lo: usize, hi: usize) -> (r: Option<OpRole>)
    requires
        lo <= hi <= s@.len(),
    ensures
        r == sp_role(s@, lo as int, hi as int),
{
    let rev: Vec<u8> = vec![0x72u8, 0x65u8, 0x76u8, 0x65u8, 0x72u8, 0x73u8, 0x65u8];
    let spl: Vec<u8> = vec![0x73u8, 0x70u8, 0x6cu8, 0x69u8, 0x63u8, 0x65u8];
    proof {
        assert(rev@ =~= reverse_lit());
        assert(spl@ =~= splice_lit());
    }
    let hr = contains_in(s, lo, hi, rev.as_slice());
    let hs = contains_in(s, lo, hi, spl.as_slice());
    if hr && !hs {
        Some(OpRole::Reverse)
    } else if hs && !hr {
        Some(OpRole::Slice)
    } else if !hr && !hs {
        Some(OpRole::Swap)
    } else {
        None
    }
}

/// Ten to a power.
pub open spec fn pow10(n: nat) -> int
    decreases n,
{
    if n == 0 {
        1
    } else {
        10 * pow10((n - 1) as nat)
    }
}

/// Powers of ten are positive and grow.
proof fn lemma_pow10_le(m: nat, n: nat)
    requires
        m <= n,
    ensures
        0 < pow10(m) <= pow10(n),
    decreases n,
{
    if n == 0 {
    } else if m == n {
        lemma_pow10_le(0, (n - 1) as nat);
    } else {
        lemma_pow10_le(m, (n - 1) as nat);
    }
}

/// A digit run's value is below ten to its length.
proof fn lemma_dec_val_bound(s: Seq<u8>, a: int, b: int)
    requires
        forall|k: int| a <= k < b ==> is_digit(s[k]),
        0 <= a <= b <= s.len(),
    ensures
        0 <= dec_val(s, a, b) < pow10((b - a) as nat),
    decreases b - a,
{
    if a < b {
        lemma_dec_val_bound(s, a, b - 1);
        assert(dec_val(s, a, b - 1) * 10 <= (pow10((b - 1 - a) as nat) - 1) * 10)
            by (nonlinear_arith)
            requires
                dec_val(s, a, b - 1) <= pow10((b - 1 - a) as nat) - 1,
        ;
    }
}

/// What one statement of the decoder body contributes: a hard failure
/// (a recognized call whose argument cannot be read), nothing (no call
/// into the helper object), or one recorded operation.
pub open spec fn sp_call_in(
    s: Seq<u8>,
    lo: int,
    hi: int,
    n_rev: Seq<u8>,
    n_sli: Seq<u8>,
    n_swa: Seq<u8>,
) -> Option<Option<CipherFunction>> {
    match sp_find(s, seq![0x2eu8], lo) {
        None => Some(None),
        Some(d) => if d >= hi {
            Some(None)
        } else {
            let ie = sp_ident_end(s, d + 1);
            let m = s.subrange(d + 1, ie);
            if !(ie < s.len() && s[ie] == 0x28) {
                Some(None)
            } else if m == n_rev {
                Some(Some(CipherFunction::Reverse))
            } else if m == n_sli || m == n_swa {
                match sp_find(s, seq![0x29u8], ie + 1) {
                    None => None,
                    Some(cl) => if cl >= hi {
                        None
                    } else {
                        match sp_find(s, seq![0x2cu8], ie + 1) {
                            None => None,
                            Some(cm) => if cm >= cl {
                                None
                            } else {
                                let a = cm + 1;
                                if a < cl && cl - a <= 9 && sp_digits(s, a) == cl {
                                    let v = dec_val(s, a, cl);
                                    if m == n_sli {
                                        Some(Some(CipherFunction::Slice(v as usize)))
                                    } else {
                                        Some(Some(CipherFunction::Swap(v as usize)))
                                    }
                                } else {
                                    None
                                }
                            },
                        }
                    },
                }
            } else {
                Some(None)
            }
        },
    }
}

/// The operations the decoder body records, statement by statement, in
/// source order.
pub open spec fn sp_calls(
    s: Seq<u8>,
    q: int,
    be: int,
    n_rev: Seq<u8>,
    n_sli: Seq<u8>,
    n_swa: Seq<u8>,
) -> Option<Seq<CipherFunction>>
    decreases be + 1 - q,
{
    if q < 0 || q >= be {
        Some(Seq::empty())
    } else {
        let semi0 = match sp_find(s, seq![0x3bu8], q) {
            Some(x) => if x < be {
                x
            } else {
                be
            },
            None => be,
        };
        let semi = if semi0 < q {
            q
        } else {
            semi0
        };
        match sp_call_in(s, q, semi, n_rev, n_sli, n_swa) {
            None => None,
            Some(None) => sp_calls(s, semi + 1, be, n_rev, n_sli, n_swa),
            Some(Some(op)) => match sp_calls(s, semi + 1, be, n_rev, n_sli, n_swa) {
                None => None,
                Some(rest) => Some(seq![op] + rest),
            },
        }
    }
}

/// Read one statement's contribution.
fn call_in(s: &[u8], lo: usize, hi: usize, n_rev: &[u8], n_sli: &[u8], n_swa: &[u8]) -> (r: Option<
    Option<CipherFunction>,
>)
    requires
        lo <= hi <= s@.len(),
    ensures
        r == sp_call_in(s@, lo as int, hi as int, n_rev@, n_sli@, n_swa@),
{
    let dot: Vec<u8> = vec![0x2eu8];
    let close: Vec<u8> = vec![0x29u8];
    let comma: Vec<u8> = vec![0x2cu8];
    proof {
        assert(dot@ =~= seq![0x2eu8]);
        assert(close@ =~= seq![0x29u8]);
        assert(comma@ =~= seq![0x2cu8]);
    }
    match find_from(s, dot.as_slice(), lo) {
        None => {
            proof {
                lemma_sp_find_none(s@, seq![0x2eu8], lo as int);
            }
            Some(None)
        },
        Some(d) => {
            proof {
                lemma_sp_find_some(s@, seq![0x2eu8], lo as int, d as int);
            }
            if d >= hi {
                return Some(None);
            }
            let ie = ident_end(s, d + 1);
            let m = &s[d + 1..ie];
            if !(ie < s.len() && s[ie] == 0x28) {
                return Some(None);
            }
            if crate::scan::bytes_eq(m, n_rev) {
                return Some(Some(CipherFunction::Reverse));
            }
            let is_sli = crate::scan::bytes_eq(m, n_sli);
            let is_swa = crate::scan::bytes_eq(m, n_swa);
            if is_sli || is_swa {
                match find_from(s, close.as_slice(), ie + 1) {
                    None => {
                        proof {
                            lemma_sp_find_none(s@, seq![0x29u8], (ie + 1) as int);
                        }
                        None
                    },
                    Some(cl) => {
                        proof {
                            lemma_sp_find_some(s@, seq![0x29u8], (ie + 1) as int, cl as int);
                        }
                        if cl >= hi {
                            return None;
                        }
                        match find_from(s, comma.as_slice(), ie + 1) {
                            None => {
                                proof {
                                    lemma_sp_find_none(s@, seq![0x2cu8], (ie + 1) as int);
                                }
                                None
                            },
                            Some(cm) => {
                                proof {
                                    lemma_sp_find_some(s@, seq![0x2cu8], (ie + 1) as int, cm as int);
                                }
                                if cm >= cl {
                                    return None;
                                }
                                let a = cm + 1;
                                let de = crate::json::digits_end(s, a);
                                if !(a < cl && cl - a <= 9 && de == cl) {
                                    return None;
                                }
                                proof {
                                    crate::json::lemma_sp_digits_run(s@, a as int);
                                    lemma_dec_val_bound(s@, a as int, cl as int);
                                    lemma_pow10_le(((cl - a)) as nat, 9);
                                    assert(pow10(9) == 1000000000) by {
                                        reveal_with_fuel(pow10, 10);
                                    }
                                }
                                let mut v: u32 = 0;
                                let mut k: usize = a;
                                while k < cl
                                    invariant
                                        a <= k <= cl <= s@.len(),
                                        cl - a <= 9,
                                        sp_digits(s@, a as int) == cl,
                                        forall|t: int| a <= t < cl ==> is_digit(s@[t]),
                                        v as int == dec_val(s@, a as int, k as int),
                                        (v as int) < pow10((k - a) as nat),
                                    decreases cl - k,
                                {
                                    let d2: u32 = (s[k] - 0x30) as u32;
                                    proof {
                                        assert(dec_val(s@, a as int, k + 1) == dec_val(
                                            s@,
                                            a as int,
                                            k as int,
                                        ) * 10 + (s@[k as int] - 0x30));
                                        assert(pow10(((k + 1) - a) as nat) == 10 * pow10(
                                            (k - a) as nat,
                                        ));
                                        assert((v as int) * 10 + d2 < 10 * pow10((k - a) as nat))
                                            by (nonlinear_arith)
                                            requires
                                                (v as int) < pow10((k - a) as nat),
                                                0 <= d2 <= 9,
                                        ;
                                        lemma_pow10_le((((k + 1) - a)) as nat, 9);
                                        assert(pow10(9) == 1000000000) by {
                                            reveal_with_fuel(pow10, 10);
                                        }
                                    }
                                    v = v * 10 + d2;
                                    k = k + 1;
                                }
                                if is_sli {
                                    Some(Some(CipherFunction::Slice(v as usize)))
                                } else {
                                    proof {
                                        assert(s@.subrange(d + 1, ie as int) != n_sli@);
                                    }
                                    Some(Some(CipherFunction::Swap(v as usize)))
                                }
                            },
                        }
                    },
                }
            } else {
                Some(None)
            }
        },
    }
}

/// Collect the decoder body's recorded operations, in source order.
fn calls_scan(
    s: &[u8],
    q0: usize,
    be: usize,
    n_rev: &[u8],
    n_sli: &[u8],
    n_swa: &[u8],
) -> (r: Option<Vec<CipherFunction>>)
    requires
        q0 <= be <= s@.len(),
    ensures
        match r {
            Some(prog) => sp_calls(s@, q0 as int, be as int, n_rev@, n_sli@, n_swa@) == Some(
                prog@,
            ),
            None => sp_calls(s@, q0 as int, be as int, n_rev@, n_sli@, n_swa@) is None,
        },
{
    let semi_pat: Vec<u8> = vec![0x3bu8];
    proof {
        assert(semi_pat@ =~= seq![0x3bu8]);
    }
    let mut out: Vec<CipherFunction> = Vec::new();
    let mut q: usize = q0;
    proof {
        assert(out@ + Seq::<CipherFunction>::empty() =~= out@);
    }
    while q < be
        invariant
            q0 <= q,
            be <= s@.len(),
            semi_pat@ == seq![0x3bu8],
            match sp_calls(s@, q as int, be as int, n_rev@, n_sli@, n_swa@) {
                Some(rest) => sp_calls(s@, q0 as int, be as int, n_rev@, n_sli@, n_swa@) == Some(
                    out@ + rest,
                ),
                None => sp_calls(s@, q0 as int, be as int, n_rev@, n_sli@, n_swa@) is None,
            },
        decreases be - q,
    {
        let semi: usize = match find_from(s, semi_pat.as_slice(), q) {
            None => {
                proof {
                    lemma_sp_find_none(s@, seq![0x3bu8], q as int);
                }
                be
            },
            Some(x) => {
                proof {
                    lemma_sp_find_some(s@, seq![0x3bu8], q as int, x as int);
                }
                if x < be {
                    x
                } else {
                    be
                }
            },
        };
        proof {
            assert(sp_calls(s@, q as int, be as int, n_rev@, n_sli@, n_swa@) == (match sp_call_in(
                s@,
                q as int,
                semi as int,
                n_rev@,
                n_sli@,
                n_swa@,
            ) {
                None => None,
                Some(None) => sp_calls(s@, (semi + 1) as int, be as int, n_rev@, n_sli@, n_swa@),
                Some(Some(op2)) => match sp_calls(
                    s@,
                    (semi + 1) as int,
                    be as int,
                    n_rev@,
                    n_sli@,
                    n_swa@,
                ) {
                    None => None,
                    Some(rr) => Some(seq![op2] + rr),
                },
            }));
        }
        match call_in(s, q, semi, n_rev, n_sli, n_swa) {
            None => {
                return None;
            },
            Some(None) => {
            },
            Some(Some(op)) => {
                let ghost pre = out@;
                out.push(op);
                proof {
                    assert(out@ =~= pre + seq![op]);
                    match sp_calls(s@, (semi + 1) as int, be as int, n_rev@, n_sli@, n_swa@) {
                        Some(rr) => {
                            assert((pre + seq![op]) + rr =~= pre + (seq![op] + rr));
                        },
                        None => {
                        },
                    }
                }
            },
        }
        if semi < be {
            q = semi + 1;
        } else {
            proof {
                assert(sp_calls(s@, (semi + 1) as int, be as int, n_rev@, n_sli@, n_swa@) == Some(
                    Seq::<CipherFunction>::empty(),
                ));
                assert(sp_calls(s@, be as int, be as int, n_rev@, n_sli@, n_swa@) == Some(
                    Seq::<CipherFunction>::empty(),
                ));
            }
            q = be;
        }
    }
    proof {
        assert(out@ + Seq::<CipherFunction>::empty() =~= out@);
    }
    Some(out)
}


/// The name of the member that plays a role.
pub open spec fn sp_pick_name(
    n1: Seq<u8>,
    r1: OpRole,
    n2: Seq<u8>,
    r2: OpRole,
    n3: Seq<u8>,
    r3: OpRole,
    t: OpRole,
) -> Seq<u8> {
    if r1 == t {
        n1
    } else if r2 == t {
        n2
    } else {
        n3
    }
}

/// The cipher program a client script denotes, recovered purely by shape:
/// the unique decoder function, the helper object it first calls into,
/// that object's literal of exactly three members — one per role, at
/// three distinct names — and the decoder's calls in source order.
/// `None` whenever any step has no match, several matches, an ambiguous
/// member, a role collision, or an unreadable argument, and for an empty
/// program.
pub open spec fn sp_cipher_program(s: Seq<u8>) -> Option<Seq<CipherFunction>> {
    if sp_decoder_count(s, 0) != 1 {
        None
    } else {
        match sp_decoder_first(s, 0) {
            None => None,
            Some(p) => match sp_decoder_at(s, p) {
                None => None,
                Some(bs) => match sp_find(s, seq![0x7du8], bs) {
                    None => None,
                    Some(be) => match sp_find_helper(s, bs, be) {
                        None => None,
                        Some(hname) => {
                            let needle = var_space_lit() + hname + seq![0x3du8];
                            match sp_find(s, needle, 0) {
                                None => None,
                                Some(vp) => {
                                    let o0 = vp + needle.len();
                                    if !(o0 < s.len() && s[o0] == 0x7b) {
                                        None
                                    } else {
                                        sp_members_program(s, bs, be, o0 + 1)
                                    }
                                },
                            }
                        },
                    },
                },
            },
        }
    }
}

/// The tail of the recovery, from the first member of the helper
/// object's literal on.
pub open spec fn sp_members_program(s: Seq<u8>, bs: int, be: int, m1: int) -> Option<
    Seq<CipherFunction>,
> {
    match sp_member(s, m1) {
        None => None,
        Some((n1, l1, h1, e1)) => {
            let c1 = sp_ws(s, e1);
            if !(c1 < s.len() && s[c1] == 0x2c) {
                None
            } else {
                match sp_member(s, c1 + 1) {
                    None => None,
                    Some((n2, l2, h2, e2)) => {
                        let c2 = sp_ws(s, e2);
                        if !(c2 < s.len() && s[c2] == 0x2c) {
                            None
                        } else {
                            match sp_member(s, c2 + 1) {
                                None => None,
                                Some((n3, l3, h3, e3)) => {
                                    let c3 = sp_ws(s, e3);
                                    if !(c3 < s.len() && s[c3] == 0x7d) {
                                        None
                                    } else {
                                        match (
                                            sp_role(s, l1, h1),
                                            sp_role(s, l2, h2),
                                            sp_role(s, l3, h3),
                                        ) {
                                            (Some(r1), Some(r2), Some(r3)) => {
                                                if r1 != r2 && r1 != r3 && r2 != r3 && n1 != n2
                                                    && n1 != n3 && n2 != n3 {
                                                    let nr = sp_pick_name(
                                                        n1,
                                                        r1,
                                                        n2,
                                                        r2,
                                                        n3,
                                                        r3,
                                                        OpRole::Reverse,
                                                    );
                                                    let ns = sp_pick_name(
                                                        n1,
                                                        r1,
                                                        n2,
                                                        r2,
                                                        n3,
                                                        r3,
                                                        OpRole::Slice,
                                                    );
                                                    let nw = sp_pick_name(
                                                        n1,
                                                        r1,
                                                        n2,
                                                        r2,
                                                        n3,
                                                        r3,
                                                        OpRole::Swap,
                                                    );
                                                    match sp_calls(s, bs, be, nr, ns, nw) {
                                                        None => None,
                                                        Some(prog) => if prog.len() == 0 {
                                                            None
                                                        } else {
                                                            Some(prog)
                                                        },
                                                    }
                                                } else {
                                                    None
                                                }
                                            },
                                            _ => None,
                                        }
                                    }
                                },
                            }
                        }
                    },
                }
            }
        },
    }
}

/// Recover the cipher program from the platform's client script: find the
/// unique decoder function by shape, the helper object it calls into,
/// classify that object's three members by the shape of their bodies,
/// and record the decoder's calls in source order. Any step with no
/// match, several matches, an ambiguous member, a role collision, two
/// roles at one name, or an unreadable argument fails; there is no
/// fallback, because a wrong program would only surface later as an
/// unplayable link.
pub fn get_cipher_fun(js: &[u8]) -> (r: Result<Vec<CipherFunction>, ErrorExtractor>)
    ensures
        match r {
            Ok(prog) => sp_cipher_program(js@) == Some(prog@) && prog@.len() > 0,
            Err(e) => sp_cipher_program(js@) is None && e matches
                ErrorExtractor::CipherExtractionFailed(_),
        },
{
    let bs = match find_decoder(js) {
        Some(bs) => bs,
        None => {
            return Err(
                ErrorExtractor::CipherExtractionFailed(
                    String::from_str("No single decoder function of the expected shape"),
                ),
            );
        },
    };
    let brace: Vec<u8> = vec![0x7du8];
    proof {
        assert(brace@ =~= seq![0x7du8]);
    }
    let be = match find_from(js, brace.as_slice(), bs) {
        Some(be) => {
            proof {
                lemma_sp_find_some(js@, seq![0x7du8], bs as int, be as int);
            }
            be
        },
        None => {
            proof {
                lemma_sp_find_none(js@, seq![0x7du8], bs as int);
            }
            return Err(
                ErrorExtractor::CipherExtractionFailed(
                    String::from_str("The decoder function has no end"),
                ),
            );
        },
    };
    let hname = match find_helper(js, bs, be) {
        Some(h) => h,
        None => {
            return Err(
                ErrorExtractor::CipherExtractionFailed(
                    String::from_str("No call into a helper object in the decoder"),
                ),
            );
        },
    };
    let mut needle: Vec<u8> = vec![0x76u8, 0x61u8, 0x72u8, 0x20u8];
    let ghost hn = hname@;
    let mut hcopy = hname;
    needle.append(&mut hcopy);
    needle.push(0x3du8);
    proof {
        assert(needle@ =~= var_space_lit() + hn + seq![0x3du8]);
        assert(needle@.len() > 0);
    }
    let vp = match find_from(js, needle.as_slice(), 0) {
        Some(vp) => {
            proof {
                lemma_sp_find_some(js@, needle@, 0, vp as int);
            }
            vp
        },
        None => {
            proof {
                lemma_sp_find_none(js@, needle@, 0);
            }
            return Err(
                ErrorExtractor::CipherExtractionFailed(
                    String::from_str("No literal definition of the helper object"),
                ),
            );
        },
    };
    let n = js.len();
    proof {
        assert(vp + needle@.len() <= n);
    }
    let o0 = vp + needle.len();
    if !(o0 < js.len() && js[o0] == 0x7b) {
        return Err(
            ErrorExtractor::CipherExtractionFailed(
                String::from_str("The helper object is no literal"),
            ),
        );
    }
    let (n1, l1, h1, e1) = match member(js, o0 + 1) {
        Some(m) => m,
        None => {
            return Err(
                ErrorExtractor::CipherExtractionFailed(
                    String::from_str("The helper object's first member has no function shape"),
                ),
            );
        },
    };
    let c1 = crate::json::skip_ws(js, e1);
    if !(c1 < js.len() && js[c1] == 0x2c) {
        return Err(
            ErrorExtractor::CipherExtractionFailed(
                String::from_str("No second member in the helper object"),
            ),
        );
    }
    let (n2, l2, h2, e2) = match member(js, c1 + 1) {
        Some(m) => m,
        None => {
            return Err(
                ErrorExtractor::CipherExtractionFailed(
                    String::from_str("The helper object's second member has no function shape"),
                ),
            );
        },
    };
    let c2 = crate::json::skip_ws(js, e2);
    if !(c2 < js.len() && js[c2] == 0x2c) {
        return Err(
            ErrorExtractor::CipherExtractionFailed(
                String::from_str("No third member in the helper object"),
            ),
        );
    }
    let (n3, l3, h3, e3) = match member(js, c2 + 1) {
        Some(m) => m,
        None => {
            return Err(
                ErrorExtractor::CipherExtractionFailed(
                    String::from_str("The helper object's third member has no function shape"),
                ),
            );
        },
    };
    let c3 = crate::json::skip_ws(js, e3);
    if !(c3 < js.len() && js[c3] == 0x7d) {
        return Err(
            ErrorExtractor::CipherExtractionFailed(
                String::from_str("The helper object does not hold exactly three members"),
            ),
        );
    }
    let r1 = match role_of(js, l1, h1) {
        Some(r) => r,
        None => {
            return Err(
                ErrorExtractor::CipherExtractionFailed(
                    String::from_str("An ambiguous member body in the helper object"),
                ),
            );
        },
    };
    let r2 = match role_of(js, l2, h2) {
        Some(r) => r,
        None => {
            return Err(
                ErrorExtractor::CipherExtractionFailed(
                    String::from_str("An ambiguous member body in the helper object"),
                ),
            );
        },
    };
    let r3 = match role_of(js, l3, h3) {
        Some(r) => r,
        None => {
            return Err(
                ErrorExtractor::CipherExtractionFailed(
                    String::from_str("An ambiguous member body in the helper object"),
                ),
            );
        },
    };
    if !(r1 != r2 && r1 != r3 && r2 != r3) {
        return Err(
            ErrorExtractor::CipherExtractionFailed(
                String::from_str("Two members of the helper object play one role"),
            ),
        );
    }
    if crate::scan::bytes_eq(n1.as_slice(), n2.as_slice()) || crate::scan::bytes_eq(
        n1.as_slice(),
        n3.as_slice(),
    ) || crate::scan::bytes_eq(n2.as_slice(), n3.as_slice()) {
        return Err(
            ErrorExtractor::CipherExtractionFailed(
                String::from_str("Two members of the helper object share a name"),
            ),
        );
    }
    let nr: &Vec<u8> = if r1 == OpRole::Reverse {
        &n1
    } else if r2 == OpRole::Reverse {
        &n2
    } else {
        &n3
    };
    let ns: &Vec<u8> = if r1 == OpRole::Slice {
        &n1
    } else if r2 == OpRole::Slice {
        &n2
    } else {
        &n3
    };
    let nw: &Vec<u8> = if r1 == OpRole::Swap {
        &n1
    } else if r2 == OpRole::Swap {
        &n2
    } else {
        &n3
    };
    let prog = match calls_scan(js, bs, be, nr.as_slice(), ns.as_slice(), nw.as_slice()) {
        Some(prog) => prog,
        None => {
            return Err(
                ErrorExtractor::CipherExtractionFailed(
                    String::from_str("A call into the helper object has no readable argument"),
                ),
            );
        },
    };
    if prog.len() == 0 {
        return Err(
            ErrorExtractor::CipherExtractionFailed(
                String::from_str("The decoder records no operations"),
            ),
        );
    }
    Ok(prog)
}

} // verus!
