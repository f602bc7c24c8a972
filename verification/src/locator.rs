//! Locating embedded state inside a page: the platform writes its page
//! state as a JSON object literal assigned to a marker variable inside a
//! script element, and names its versioned client script under a fixed
//! key. Both are found by a single linear scan, never by parsing the
//! whole page.

use vstd::prelude::*;
use vstd::string::StringSliceAdditionalSpecFns;
use crate::info::ErrorExtractor;
use crate::json::Json;
use crate::json::sp_json;
use crate::scan::find_from;
use crate::scan::lemma_sp_find_none;
use crate::scan::lemma_sp_find_some;
use crate::scan::sp_find;

verus! {

/// The bytes of the script-closing boundary `</script>`.
pub open spec fn script_close() -> Seq<u8> {
    seq![0x3cu8, 0x2fu8, 0x73u8, 0x63u8, 0x72u8, 0x69u8, 0x70u8, 0x74u8, 0x3eu8]
}

/// The bytes of the client-script key `jsUrl`.
pub open spec fn js_url_key() -> Seq<u8> {
    seq![0x6au8, 0x73u8, 0x55u8, 0x72u8, 0x6cu8]
}

/// What extracting a marked variable from a page yields: the region
/// between the marker's assignment and the script boundary, parsed as
/// JSON. `None` stands for each of the three ways it can fail: marker
/// absent, no boundary after it, or a region that is no JSON value.
pub open spec fn sp_var_outcome(page: Seq<u8>, var: Seq<u8>) -> Option<crate::json::JsonV> {
    match sp_find(page, var, 0) {
        None => None,
        Some(i) => match sp_find(page, script_close(), i) {
            None => None,
            Some(b) => {
                let a = i + var.len() + 3;
                if a <= b - 1 {
                    sp_json(page.subrange(a, b - 1))
                } else {
                    None
                }
            },
        },
    }
}

/// Extract the JSON object literal assigned to a marker variable: scan for
/// the first occurrence of the marker, then for the next script-closing
/// boundary, and parse what stands between the assignment and the
/// boundary. Fails when the marker is absent, when no boundary follows
/// it, or when the intervening text is no JSON value, each with its own
/// message.
pub fn get_var(webpage: &[u8], var: &[u8]) -> (r: Result<Json, ErrorExtractor>)
    requires
        var@.len() > 0,
    ensures
        match r {
            Ok(j) => sp_var_outcome(webpage@, var@) == Some(j@),
            Err(e) => sp_var_outcome(webpage@, var@) is None && (match e {
                ErrorExtractor::ErrorParsing(m) => match sp_find(webpage@, var@, 0) {
                    None => m@ == "No marker found in webpage"@,
                    Some(i) => match sp_find(webpage@, script_close(), i) {
                        None => m@ == "No script boundary found after marker"@,
                        Some(b) => if i + var@.len() + 3 <= b - 1 {
                            m@ == "The marked region is no JSON value"@
                        } else {
                            m@ == "No room for a value before the boundary"@
                        },
                    },
                },
                _ => false,
            }),
        },
{
    let bound: Vec<u8> = vec![
        0x3cu8,
        0x2fu8,
        0x73u8,
        0x63u8,
        0x72u8,
        0x69u8,
        0x70u8,
        0x74u8,
        0x3eu8,
    ];
    proof {
        assert(bound@ =~= script_close());
    }
    match find_from(webpage, var, 0) {
        None => {
            proof {
                lemma_sp_find_none(webpage@, var@, 0);
            }
            Err(ErrorExtractor::ErrorParsing(String::from_str("No marker found in webpage")))
        },
        Some(i) => {
            proof {
                lemma_sp_find_some(webpage@, var@, 0, i as int);
            }
            match find_from(webpage, bound.as_slice(), i) {
                None => {
                    proof {
                        lemma_sp_find_none(webpage@, script_close(), i as int);
                    }
                    Err(
                        ErrorExtractor::ErrorParsing(
                            String::from_str("No script boundary found after marker"),
                        ),
                    )
                },
                Some(b) => {
                    proof {
                        lemma_sp_find_some(webpage@, script_close(), i as int, b as int);
                        assert(i + var@.len() <= webpage@.len());
                    }
                    let n = webpage.len();
                    if b >= 4 && i + var.len() <= b - 4 {
                        let a = i + var.len() + 3;
                        let region = crate::json::copy_range(webpage, a, b - 1);
                        match crate::json::parse_json(region.as_slice()) {
                            Some(j) => Ok(j),
                            None => Err(
                                ErrorExtractor::ErrorParsing(
                                    String::from_str("The marked region is no JSON value"),
                                ),
                            ),
                        }
                    } else {
                        Err(
                            ErrorExtractor::ErrorParsing(
                                String::from_str("No room for a value before the boundary"),
                            ),
                        )
                    }
                },
            }
        },
    }
}

/// Build the absolute address of the platform's versioned client script:
/// the path under the first `jsUrl` key of the page, up to the closing
/// quote, behind the platform's origin.
pub fn get_js_url(webpage: &[u8]) -> (r: Result<Vec<u8>, ErrorExtractor>)
    ensures
        match r {
            Ok(u) => {
                &&& sp_find(webpage@, js_url_key(), 0) matches Some(i)
                &&& i + 8 <= webpage@.len()
                &&& sp_find(webpage@, seq![0x22u8], i + 8) matches Some(q)
                &&& u@ == "https://www.youtube.com".spec_bytes() + webpage@.subrange(i + 8, q)
            },
            Err(e) => {
                &&& e matches ErrorExtractor::ErrorParsing(_)
                &&& match sp_find(webpage@, js_url_key(), 0) {
                    None => true,
                    Some(i) => i + 8 > webpage@.len() || sp_find(webpage@, seq![0x22u8], i + 8)
                        is None,
                }
            },
        },
{
    let key: Vec<u8> = vec![0x6au8, 0x73u8, 0x55u8, 0x72u8, 0x6cu8];
    proof {
        assert(key@ =~= js_url_key());
    }
    let quote: Vec<u8> = vec![0x22u8];
    proof {
        assert(quote@ =~= seq![0x22u8]);
    }
    match find_from(webpage, key.as_slice(), 0) {
        None => {
            proof {
                lemma_sp_find_none(webpage@, js_url_key(), 0);
            }
            Err(ErrorExtractor::ErrorParsing(String::from_str("No jsUrl found")))
        },
        Some(i) => {
            proof {
                lemma_sp_find_some(webpage@, js_url_key(), 0, i as int);
            }
            if webpage.len() - i < 8 {
                return Err(
                    ErrorExtractor::ErrorParsing(String::from_str("Page ends right after jsUrl")),
                );
            }
            match find_from(webpage, quote.as_slice(), i + 8) {
                None => {
                    proof {
                        lemma_sp_find_none(webpage@, seq![0x22u8], i + 8);
                    }
                    Err(
                        ErrorExtractor::ErrorParsing(
                            String::from_str("No closing quote found after jsUrl"),
                        ),
                    )
                },
                Some(q) => {
                    proof {
                        lemma_sp_find_some(webpage@, seq![0x22u8], i + 8, q as int);
                    }
                    let prefix = "https://www.youtube.com".as_bytes();
                    let mut u: Vec<u8> = Vec::new();
                    let mut k: usize = 0;
                    while k < prefix.len()
                        invariant
                            k <= prefix@.len(),
                            u@ == prefix@.subrange(0, k as int),
                        decreases prefix@.len() - k,
                    {
                        u.push(prefix[k]);
                        k = k + 1;
                    }
                    proof {
                        assert(u@ =~= prefix@);
                    }
                    let mut m: usize = i + 8;
                    let ghost base = u@;
                    proof {
                        assert(base + webpage@.subrange(i + 8, (i + 8) as int) =~= base);
                    }
                    while m < q
                        invariant
                            i + 8 <= m <= q <= webpage@.len(),
                            u@ == base + webpage@.subrange(i + 8, m as int),
                        decreases q - m,
                    {
                        u.push(webpage[m]);
                        proof {
                            assert(base + webpage@.subrange(i + 8, m as int) + seq![
                                webpage@[m as int],
                            ] =~= base + webpage@.subrange(i + 8, m + 1));
                        }
                        m = m + 1;
                    }
                    Ok(u)
                },
            }
        },
    }
}

} // verus!
