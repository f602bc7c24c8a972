//! Percent-coding of URL text, over raw bytes. Decoding is lenient the
//! way the platform's own URLs demand: a `%` that two hexadecimal digits
//! follow becomes one byte, any other byte passes through unchanged.
//! Encoding keeps the unreserved characters and writes every other byte
//! as `%` and two uppercase hexadecimal digits.

use vstd::prelude::*;
use crate::json::hex_val;

verus! {

/// The percent-decoding of a byte string.
pub open spec fn sp_pct_decode(s: Seq<u8>) -> Seq<u8>
    decreases s.len(),
{
    if s.len() == 0 {
        Seq::empty()
    } else if s[0] == 0x25 && s.len() >= 3 && hex_val(s[1]) is Some && hex_val(s[2]) is Some {
        seq![((hex_val(s[1]).unwrap() * 16 + hex_val(s[2]).unwrap()) as u8)] + sp_pct_decode(
            s.skip(3),
        )
    } else {
        seq![s[0]] + sp_pct_decode(s.skip(1))
    }
}

/// Percent-decode a byte string.
pub fn pct_decode(s: &[u8]) -> (r: Vec<u8>)
    ensures
        r@ == sp_pct_decode(s@),
{
    let mut out: Vec<u8> = Vec::new();
    let mut i: usize = 0;
    proof {
        assert(s@.skip(0) =~= s@);
        assert(out@ + sp_pct_decode(s@) =~= sp_pct_decode(s@));
    }
    while i < s.len()
        invariant
            i <= s@.len(),
            sp_pct_decode(s@) == out@ + sp_pct_decode(s@.skip(i as int)),
        decreases s@.len() - i,
    {
        let ghost pre = out@;
        let ghost rest = s@.skip(i as int);
        proof {
            assert(rest[0] == s@[i as int]);
            assert(rest.len() == s@.len() - i);
        }
        if s[i] == 0x25 && s.len() - i >= 3 {
            proof {
                assert(rest[1] == s@[i + 1]);
                assert(rest[2] == s@[i + 2]);
            }
            let h1 = crate::json::hex_digit(s[i + 1]);
            let h2 = crate::json::hex_digit(s[i + 2]);
            match (h1, h2) {
                (Some(a), Some(b)) => {
                    out.push((a * 16 + b) as u8);
                    proof {
                        assert(rest.skip(3) =~= s@.skip(i + 3));
                        assert(pre + (seq![((a * 16 + b) as u8)] + sp_pct_decode(s@.skip(i + 3)))
                            =~= out@ + sp_pct_decode(s@.skip(i + 3)));
                    }
                    i = i + 3;
                },
                _ => {
                    out.push(s[i]);
                    proof {
                        assert(rest.skip(1) =~= s@.skip(i + 1));
                        assert(pre + (seq![s@[i as int]] + sp_pct_decode(s@.skip(i + 1))) =~= out@
                            + sp_pct_decode(s@.skip(i + 1)));
                    }
                    i = i + 1;
                },
            }
        } else {
            out.push(s[i]);
            proof {
                assert(rest.skip(1) =~= s@.skip(i + 1));
                assert(pre + (seq![s@[i as int]] + sp_pct_decode(s@.skip(i + 1))) =~= out@
                    + sp_pct_decode(s@.skip(i + 1)));
            }
            i = i + 1;
        }
    }
    proof {
        assert(s@.skip(i as int) =~= Seq::<u8>::empty());
        assert(out@ + Seq::<u8>::empty() =~= out@);
    }
    out
}

/// A byte percent-encoding leaves as itself: a letter, a digit, `-`,
/// `.`, `_` or `~`.
pub open spec fn is_unreserved(b: u8) -> bool {
    (0x30 <= b <= 0x39) || (0x41 <= b <= 0x5a) || (0x61 <= b <= 0x7a) || b == 0x2d || b == 0x2e
        || b == 0x5f || b == 0x7e
}

/// The uppercase hexadecimal digit of a value below sixteen.
pub open spec fn hex_upper(n: u8) -> u8
    recommends
        n < 16,
{
    if n < 10 {
        (0x30 + n) as u8
    } else {
        (0x41 + (n - 10)) as u8
    }
}

/// The percent-encoding of a byte string.
pub open spec fn sp_pct_encode(s: Seq<u8>) -> Seq<u8>
    decreases s.len(),
{
    if s.len() == 0 {
        Seq::empty()
    } else if is_unreserved(s[0]) {
        seq![s[0]] + sp_pct_encode(s.skip(1))
    } else {
        seq![0x25u8, hex_upper(s[0] / 16), hex_upper(s[0] % 16)] + sp_pct_encode(s.skip(1))
    }
}

/// Percent-encode a byte string.
pub fn pct_encode(s: &[u8]) -> (r: Vec<u8>)
    ensures
        r@ == sp_pct_encode(s@),
{
    let mut out: Vec<u8> = Vec::new();
    let mut i: usize = 0;
    proof {
        assert(s@.skip(0) =~= s@);
        assert(out@ + sp_pct_encode(s@) =~= sp_pct_encode(s@));
    }
    while i < s.len()
        invariant
            i <= s@.len(),
            sp_pct_encode(s@) == out@ + sp_pct_encode(s@.skip(i as int)),
        decreases s@.len() - i,
    {
        let ghost pre = out@;
        let ghost rest = s@.skip(i as int);
        proof {
            assert(rest[0] == s@[i as int]);
            assert(rest.len() == s@.len() - i);
            assert(rest.skip(1) =~= s@.skip(i + 1));
        }
        let b = s[i];
        if (0x30 <= b && b <= 0x39) || (0x41 <= b && b <= 0x5a) || (0x61 <= b && b <= 0x7a) || b
            == 0x2d || b == 0x2e || b == 0x5f || b == 0x7e {
            out.push(b);
            proof {
                assert(pre + (seq![s@[i as int]] + sp_pct_encode(s@.skip(i + 1))) =~= out@
                    + sp_pct_encode(s@.skip(i + 1)));
            }
        } else {
            out.push(0x25);
            let hi = b / 16;
            let lo = b % 16;
            let hb: u8 = if hi < 10 {
                0x30 + hi
            } else {
                0x41 + (hi - 10)
            };
            let lb: u8 = if lo < 10 {
                0x30 + lo
            } else {
                0x41 + (lo - 10)
            };
            out.push(hb);
            out.push(lb);
            proof {
                assert(hb == hex_upper(s@[i as int] / 16));
                assert(lb == hex_upper(s@[i as int] % 16));
                assert(pre + (seq![0x25u8, hex_upper(s@[i as int] / 16), hex_upper(
                    s@[i as int] % 16,
                )] + sp_pct_encode(s@.skip(i + 1))) =~= out@ + sp_pct_encode(s@.skip(i + 1)));
            }
        }
        i = i + 1;
    }
    proof {
        assert(s@.skip(i as int) =~= Seq::<u8>::empty());
        assert(out@ + Seq::<u8>::empty() =~= out@);
    }
    out
}

} // verus!
