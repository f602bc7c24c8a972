//! The audio stream selector: filter a watch page's stream candidates to
//! the audio-only formats by the fixed itag allow-list, resolve each
//! survivor's URL — decoding its signature where the platform ciphered
//! it — and pick the best candidate by bitrate, first seen winning ties.

use vstd::prelude::*;
use vstd::string::StringSliceAdditionalSpecFns;
use vstd::utf8::decode_utf8;
use vstd::utf8::valid_utf8;
use crate::cipher::CipherFunction;
use crate::cipher::apply_program;
use crate::cipher::decode_signature;
use crate::info::ErrorExtractor;
use crate::info::YtAudioData;
use crate::json::Json;
use crate::json::JsonV;
use crate::json::dec_val;
use crate::json::is_digit;
use crate::json::jv_get;
use crate::json::jv_of_items;
use crate::json::sp_digits;
use crate::scan::find_from;
use crate::scan::lemma_sp_find_none;
use crate::scan::lemma_sp_find_some;
use crate::scan::occurs_at;
use crate::scan::sp_find;
use crate::scan::starts_with_at;
use crate::text::string_from_utf8;
use crate::urlcode::pct_decode;
use crate::urlcode::sp_pct_decode;

verus! {

/// The fixed audio-only allow-list: the platform's format ids that carry
/// audio alone.
pub open spec fn spec_audio_itag(n: int) -> bool {
    n == 139 || n == 140 || n == 141 || n == 256 || n == 258 || n == 325 || n == 328 || n == 171
        || n == 172 || n == 249 || n == 250 || n == 252
}

/// Is this format id on the audio-only allow-list?
pub fn is_audio_itag(n: u64) -> (r: bool)
    ensures
        r == spec_audio_itag(n as int),
{
    n == 139 || n == 140 || n == 141 || n == 256 || n == 258 || n == 325 || n == 328 || n == 171
        || n == 172 || n == 249 || n == 250 || n == 252
}

/// The number a pure digit run denotes, when it fits 64 bits unsigned.
pub open spec fn sp_u64_digits(t: Seq<u8>) -> Option<u64> {
    if t.len() > 0 && sp_digits(t, 0) == t.len() && dec_val(t, 0, t.len() as int)
        <= 0xffff_ffff_ffff_ffff {
        Some(dec_val(t, 0, t.len() as int) as u64)
    } else {
        None
    }
}

/// Read a pure digit run as a 64-bit number.
pub fn parse_u64(t: &[u8]) -> (r: Option<u64>)
    ensures
        r == sp_u64_digits(t@),
{
    if t.len() == 0 {
        return None;
    }
    let de = crate::json::digits_end(t, 0);
    if de != t.len() {
        return None;
    }
    proof {
        crate::json::lemma_sp_digits_run(t@, 0);
    }
    let mut v: u64 = 0;
    let mut big = false;
    let mut k: usize = 0;
    while k < t.len()
        invariant
            k <= t@.len(),
            sp_digits(t@, 0) == t@.len(),
            forall|m: int| 0 <= m < t@.len() ==> is_digit(t@[m]),
            !big ==> v as int == dec_val(t@, 0, k as int) && v as int <= 0xffff_ffff_ffff_ffff,
            big ==> dec_val(t@, 0, k as int) > 0xffff_ffff_ffff_ffff,
        decreases t@.len() - k,
    {
        let d: u64 = (t[k] - 0x30) as u64;
        if big {
            proof {
                crate::json::lemma_dec_val_nonneg(t@, 0, k as int);
                assert(dec_val(t@, 0, k + 1) == dec_val(t@, 0, k as int) * 10 + (t@[k as int]
                    - 0x30));
                assert(dec_val(t@, 0, k as int) * 10 >= dec_val(t@, 0, k as int))
                    by (nonlinear_arith)
                    requires
                        dec_val(t@, 0, k as int) >= 0,
                ;
            }
        } else if v > (0xffff_ffff_ffff_ffffu64 - d) / 10 {
            proof {
                let q: int = (0xffff_ffff_ffff_ffff - d) / 10;
                assert(v as int >= q + 1);
                assert(q * 10 <= 0xffff_ffff_ffff_ffff - d < q * 10 + 10) by (nonlinear_arith)
                    requires
                        q == (0xffff_ffff_ffff_ffff - d) / 10,
                        0 <= d <= 9,
                ;
                assert((v as int) * 10 >= (q + 1) * 10) by (nonlinear_arith)
                    requires
                        v as int >= q + 1,
                ;
                assert(dec_val(t@, 0, k + 1) == dec_val(t@, 0, k as int) * 10 + (t@[k as int]
                    - 0x30));
            }
            big = true;
        } else {
            proof {
                let q: int = (0xffff_ffff_ffff_ffff - d) / 10;
                assert(v as int <= q);
                assert(q * 10 <= 0xffff_ffff_ffff_ffff - d) by (nonlinear_arith)
                    requires
                        q == (0xffff_ffff_ffff_ffff - d) / 10,
                        0 <= d <= 9,
                ;
                assert((v as int) * 10 <= q * 10) by (nonlinear_arith)
                    requires
                        v as int <= q,
                ;
                assert(dec_val(t@, 0, k + 1) == dec_val(t@, 0, k as int) * 10 + (t@[k as int]
                    - 0x30));
            }
            v = v * 10 + d;
        }
        k = k + 1;
    }
    if big {
        proof {
            crate::json::lemma_dec_val_monotone(t@, 0, t@.len() as int, t@.len() as int);
        }
        None
    } else {
        Some(v)
    }
}

/// The value of a key in a `&`-separated `key=value` string: the first
/// pair carrying that key.
pub open spec fn sp_param(s: Seq<u8>, q: int, key: Seq<u8>) -> Option<Seq<u8>>
    decreases s.len() + 1 - q,
{
    if q < 0 || q > s.len() {
        None
    } else {
        let se0 = match sp_find(s, seq![0x26u8], q) {
            Some(x) => if x < s.len() {
                x
            } else {
                s.len() as int
            },
            None => s.len() as int,
        };
        let se = if se0 < q {
            q
        } else {
            se0
        };
        if occurs_at(s, key + seq![0x3du8], q) && q + key.len() + 1 <= se {
            Some(s.subrange(q + key.len() + 1, se))
        } else if se < s.len() {
            sp_param(s, se + 1, key)
        } else {
            None
        }
    }
}

/// Look a key up in a `&`-separated `key=value` string.
pub fn param_lookup(s: &[u8], key: &[u8]) -> (r: Option<Vec<u8>>)
    ensures
        match r {
            Some(v) => sp_param(s@, 0, key@) == Some(v@),
            None => sp_param(s@, 0, key@) is None,
        },
{
    let amp: Vec<u8> = vec![0x26u8];
    let mut keq: Vec<u8> = vstd::slice::slice_to_vec(key);
    keq.push(0x3du8);
    let mut q: usize = 0;
    while q <= s.len()
        invariant
            q <= s@.len(),
            amp@ == seq![0x26u8],
            keq@ == key@ + seq![0x3du8],
            sp_param(s@, 0, key@) == sp_param(s@, q as int, key@),
        decreases s@.len() + 1 - q,
    {
        let se: usize = match find_from(s, amp.as_slice(), q) {
            None => {
                proof {
                    lemma_sp_find_none(s@, seq![0x26u8], q as int);
                }
                s.len()
            },
            Some(x) => {
                proof {
                    lemma_sp_find_some(s@, seq![0x26u8], q as int, x as int);
                }
                x
            },
        };
        if starts_with_at(s, keq.as_slice(), q) && q + keq.len() <= se {
            let v = crate::json::copy_range(s, q + keq.len(), se);
            return Some(v);
        }
        if se < s.len() {
            q = se + 1;
        } else {
            return None;
        }
    }
    proof {
        assert(false);
    }
    None
}

/// The numeric fields read out of one stream candidate.
pub struct AudioFieldsV {
    pub itag: u32,
    pub sample_rate: u32,
    pub bitrate: u32,
    pub channels: u16,
    pub ms_duration: Option<u64>,
    pub loudness: Option<Seq<u8>>,
}

/// The numeric fields of a candidate, when its format id, bitrate,
/// sample rate and channel count are all present and in range; the
/// optional duration and loudness are kept when readable. `None` drops
/// the candidate.
pub open spec fn sp_audio_fields(v: JsonV) -> Option<AudioFieldsV> {
    let itag = match jv_get(v, "itag".spec_bytes()) {
        Some(JsonV::Int(n)) => if 0 <= n <= 0xffff_ffff {
            Some(n as u32)
        } else {
            None
        },
        _ => None,
    };
    let bitrate = match jv_get(v, "bitrate".spec_bytes()) {
        Some(JsonV::Int(n)) => if 0 <= n <= 0xffff_ffff {
            Some(n as u32)
        } else {
            None
        },
        _ => None,
    };
    let sample_rate = match jv_get(v, "audioSampleRate".spec_bytes()) {
        Some(JsonV::Str(t)) => match sp_u64_digits(t) {
            Some(x) => if x <= 0xffff_ffff {
                Some(x as u32)
            } else {
                None
            },
            None => None,
        },
        _ => None,
    };
    let channels = match jv_get(v, "audioChannels".spec_bytes()) {
        Some(JsonV::Int(n)) => if 0 <= n <= 0xffff {
            Some(n as u16)
        } else {
            None
        },
        _ => None,
    };
    match (itag, bitrate, sample_rate, channels) {
        (Some(itag), Some(bitrate), Some(sample_rate), Some(channels)) => Some(
            AudioFieldsV {
                itag,
                sample_rate,
                bitrate,
                channels,
                ms_duration: match jv_get(v, "approxDurationMs".spec_bytes()) {
                    Some(JsonV::Str(t)) => sp_u64_digits(t),
                    _ => None,
                },
                loudness: match jv_get(v, "loudnessDb".spec_bytes()) {
                    Some(JsonV::NumText(t)) => if valid_utf8(t) {
                        Some(t)
                    } else {
                        None
                    },
                    _ => None,
                },
            },
        ),
        _ => None,
    }
}

/// A finished audio description carries exactly the fields read out of a
/// candidate.
pub open spec fn audio_matches(ad: YtAudioData, f: AudioFieldsV) -> bool {
    &&& ad.itag == f.itag
    &&& ad.sample_rate == f.sample_rate
    &&& ad.bitrate == f.bitrate
    &&& ad.channels == f.channels
    &&& ad.ms_duration == f.ms_duration
    &&& match f.loudness {
        Some(t) => ad.loudness_db matches Some(s) && s@ == decode_utf8(t),
        None => ad.loudness_db is None,
    }
}

impl YtAudioData {
    /// Read a candidate's numeric fields behind an already resolved URL.
    /// A candidate missing its format id, bitrate, sample rate or channel
    /// count — or carrying one out of range — is refused.
    pub fn new(url: String, v: &Json) -> (r: Result<YtAudioData, ErrorExtractor>)
        ensures
            match sp_audio_fields(v@) {
                Some(f) => r matches Ok(ad) && ad.url@ == url@ && audio_matches(ad, f),
                None => r matches Err(e) && e matches ErrorExtractor::ErrorParsing(_),
            },
    {
        let itag_n = match v.get("itag".as_bytes()) {
            Some(j) => match j.as_u64() {
                Some(n) => n,
                None => {
                    return Err(
                        ErrorExtractor::ErrorParsing(
                            String::from_str("Cannot read 'itag' as a number"),
                        ),
                    );
                },
            },
            None => {
                return Err(ErrorExtractor::ErrorParsing(String::from_str("Missing 'itag'")));
            },
        };
        if itag_n > 0xffff_ffff {
            return Err(ErrorExtractor::ErrorParsing(String::from_str("'itag' out of range")));
        }
        let bitrate_n = match v.get("bitrate".as_bytes()) {
            Some(j) => match j.as_u64() {
                Some(n) => n,
                None => {
                    return Err(
                        ErrorExtractor::ErrorParsing(
                            String::from_str("Cannot read 'bitrate' as a number"),
                        ),
                    );
                },
            },
            None => {
                return Err(ErrorExtractor::ErrorParsing(String::from_str("Missing 'bitrate'")));
            },
        };
        if bitrate_n > 0xffff_ffff {
            return Err(ErrorExtractor::ErrorParsing(String::from_str("'bitrate' out of range")));
        }
        let sr = match v.get("audioSampleRate".as_bytes()) {
            Some(j) => match j.str_bytes() {
                Some(t) => match parse_u64(t.as_slice()) {
                    Some(n) => n,
                    None => {
                        return Err(
                            ErrorExtractor::ErrorParsing(
                                String::from_str("Cannot read 'audioSampleRate' as a number"),
                            ),
                        );
                    },
                },
                None => {
                    return Err(
                        ErrorExtractor::ErrorParsing(
                            String::from_str("'audioSampleRate' is no text"),
                        ),
                    );
                },
            },
            None => {
                return Err(
                    ErrorExtractor::ErrorParsing(String::from_str("Missing 'audioSampleRate'")),
                );
            },
        };
        if sr > 0xffff_ffff {
            return Err(
                ErrorExtractor::ErrorParsing(String::from_str("'audioSampleRate' out of range")),
            );
        }
        let ch = match v.get("audioChannels".as_bytes()) {
            Some(j) => match j.as_u64() {
                Some(n) => n,
                None => {
                    return Err(
                        ErrorExtractor::ErrorParsing(
                            String::from_str("Cannot read 'audioChannels' as a number"),
                        ),
                    );
                },
            },
            None => {
                return Err(
                    ErrorExtractor::ErrorParsing(String::from_str("Missing 'audioChannels'")),
                );
            },
        };
        if ch > 0xffff {
            return Err(
                ErrorExtractor::ErrorParsing(String::from_str("'audioChannels' out of range")),
            );
        }
        let ms: Option<u64> = match v.get("approxDurationMs".as_bytes()) {
            Some(j) => match j.str_bytes() {
                Some(t) => parse_u64(t.as_slice()),
                None => None,
            },
            None => None,
        };
        let loud: Option<String> = match v.get("loudnessDb".as_bytes()) {
            Some(j) => match j.num_text() {
                Some(t) => string_from_utf8(vstd::slice::slice_to_vec(t.as_slice())),
                None => None,
            },
            None => None,
        };
        Ok(
            YtAudioData {
                url,
                itag: itag_n as u32,
                sample_rate: sr as u32,
                bitrate: bitrate_n as u32,
                channels: ch as u16,
                ms_duration: ms,
                loudness_db: loud,
            },
        )
    }
}

/// The bytes of `&sig=`.
pub open spec fn sig_lit() -> Seq<u8> {
    seq![0x26u8, 0x73u8, 0x69u8, 0x67u8, 0x3du8]
}

/// The resolved URL of one candidate: a plain URL percent-decoded, or
/// the ciphered form — the URL and encoded signature parts of the
/// combined parameter string, the signature percent-decoded, run through
/// the cipher program, appended as the signature parameter, and the
/// whole percent-decoded once.
pub open spec fn sp_stream_url(v: JsonV, prog: Seq<CipherFunction>) -> Option<Seq<u8>> {
    match jv_get(v, "url".spec_bytes()) {
        Some(JsonV::Str(u)) => Some(sp_pct_decode(u)),
        Some(_) => None,
        None => match jv_get(v, "signatureCipher".spec_bytes()) {
            Some(JsonV::Str(sc)) => match (
                sp_param(sc, 0, "url".spec_bytes()),
                sp_param(sc, 0, "s".spec_bytes()),
            ) {
                (Some(u), Some(sg)) => match apply_program(prog, sp_pct_decode(sg)) {
                    Some(sig) => Some(sp_pct_decode(u + sig_lit() + sig)),
                    None => None,
                },
                _ => None,
            },
            _ => None,
        },
    }
}

/// Resolve one candidate into an audio description: its URL decoded —
/// through the cipher program where the platform ciphered it — and its
/// numeric fields read.
pub fn get_url(v: &Json, prog: &Vec<CipherFunction>) -> (r: Result<YtAudioData, ErrorExtractor>)
    ensures
        match r {
            Ok(ad) => (match sp_stream_url(v@, prog@) {
                Some(ub) => valid_utf8(ub) && ad.url@ == decode_utf8(ub),
                None => false,
            }) && (match sp_audio_fields(v@) {
                Some(f) => audio_matches(ad, f),
                None => false,
            }),
            Err(e) => ((match sp_stream_url(v@, prog@) {
                Some(ub) => !valid_utf8(ub),
                None => true,
            }) || sp_audio_fields(v@) is None) && e matches ErrorExtractor::ErrorParsing(_),
        },
{
    let url_bytes: Vec<u8> = match v.get("url".as_bytes()) {
        Some(j) => match j.str_bytes() {
            Some(u) => pct_decode(u.as_slice()),
            None => {
                return Err(ErrorExtractor::ErrorParsing(String::from_str("'url' is no text")));
            },
        },
        None => {
            match v.get("signatureCipher".as_bytes()) {
                Some(j) => match j.str_bytes() {
                    Some(sc) => {
                        let u = match param_lookup(sc.as_slice(), "url".as_bytes()) {
                            Some(u) => u,
                            None => {
                                return Err(
                                    ErrorExtractor::ErrorParsing(
                                        String::from_str("No url in signatureCipher"),
                                    ),
                                );
                            },
                        };
                        let sg = match param_lookup(sc.as_slice(), "s".as_bytes()) {
                            Some(sg) => sg,
                            None => {
                                return Err(
                                    ErrorExtractor::ErrorParsing(
                                        String::from_str("No s in signatureCipher"),
                                    ),
                                );
                            },
                        };
                        let sig0 = pct_decode(sg.as_slice());
                        let sig = match decode_signature(prog, sig0) {
                            Ok(sig) => sig,
                            Err(e) => {
                                return Err(e);
                            },
                        };
                        let ghost uv = u@;
                        let ghost sigv = sig@;
                        let mut full = u;
                        let mut mid: Vec<u8> = vec![0x26u8, 0x73u8, 0x69u8, 0x67u8, 0x3du8];
                        let mut tail = sig;
                        full.append(&mut mid);
                        full.append(&mut tail);
                        proof {
                            assert(full@ =~= uv + sig_lit() + sigv);
                        }
                        pct_decode(full.as_slice())
                    },
                    None => {
                        return Err(
                            ErrorExtractor::ErrorParsing(
                                String::from_str("'signatureCipher' is no text"),
                            ),
                        );
                    },
                },
                None => {
                    return Err(
                        ErrorExtractor::ErrorParsing(
                            String::from_str("No signatureCipher nor url in the candidate"),
                        ),
                    );
                },
            }
        },
    };
    match string_from_utf8(url_bytes) {
        Some(url) => YtAudioData::new(url, v),
        None => Err(
            ErrorExtractor::ErrorParsing(String::from_str("The resolved URL is no valid UTF-8")),
        ),
    }
}


/// What one candidate contributes to the audio list: its resolved URL
/// and fields when its format id is on the allow-list and it resolves
/// cleanly; nothing — it is skipped — otherwise.
pub open spec fn sp_keep(item: JsonV, prog: Seq<CipherFunction>) -> Option<(Seq<u8>, AudioFieldsV)> {
    match jv_get(item, "itag".spec_bytes()) {
        Some(JsonV::Int(n)) => if spec_audio_itag(n) {
            match sp_stream_url(item, prog) {
                Some(ub) => if valid_utf8(ub) {
                    match sp_audio_fields(item) {
                        Some(f) => Some((ub, f)),
                        None => None,
                    }
                } else {
                    None
                },
                None => None,
            }
        } else {
            None
        },
        _ => None,
    }
}

/// The audio list of a candidate sequence, in order, skipping what does
/// not survive.
pub open spec fn sp_audio_list(items: Seq<JsonV>, prog: Seq<CipherFunction>) -> Seq<
    (Seq<u8>, AudioFieldsV),
>
    decreases items.len(),
{
    if items.len() == 0 {
        Seq::empty()
    } else {
        match sp_keep(items[0], prog) {
            Some(kept) => seq![kept] + sp_audio_list(items.drop_first(), prog),
            None => sp_audio_list(items.drop_first(), prog),
        }
    }
}

/// Extending the candidates by one extends the audio list by that
/// candidate's contribution.
proof fn lemma_sp_audio_list_push(items: Seq<JsonV>, x: JsonV, prog: Seq<CipherFunction>)
    ensures
        sp_audio_list(items.push(x), prog) == sp_audio_list(items, prog) + (match sp_keep(
            x,
            prog,
        ) {
            Some(kept) => seq![kept],
            None => Seq::<(Seq<u8>, AudioFieldsV)>::empty(),
        }),
    decreases items.len(),
{
    if items.len() == 0 {
        assert(items.push(x).drop_first() =~= Seq::<JsonV>::empty());
        assert(items.push(x)[0] == x);
        assert(sp_audio_list(items.push(x).drop_first(), prog) =~= Seq::<
            (Seq<u8>, AudioFieldsV),
        >::empty());
        match sp_keep(x, prog) {
            Some(kept) => {
                assert(sp_audio_list(items.push(x), prog) =~= seq![kept]);
                assert(sp_audio_list(items, prog) + seq![kept] =~= seq![kept]);
            },
            None => {
                assert(sp_audio_list(items.push(x), prog) =~= Seq::<(Seq<u8>, AudioFieldsV)>::empty());
                assert(sp_audio_list(items, prog) + Seq::<(Seq<u8>, AudioFieldsV)>::empty() =~= Seq::<
                    (Seq<u8>, AudioFieldsV),
                >::empty());
            },
        }
    } else {
        assert(items.push(x)[0] == items[0]);
        assert(items.push(x).drop_first() =~= items.drop_first().push(x));
        lemma_sp_audio_list_push(items.drop_first(), x, prog);
        match sp_keep(items[0], prog) {
            Some(kept) => {
                assert(sp_audio_list(items.push(x), prog) == seq![kept] + sp_audio_list(
                    items.drop_first().push(x),
                    prog,
                ));
                assert(seq![kept] + (sp_audio_list(items.drop_first(), prog) + (match sp_keep(
                    x,
                    prog,
                ) {
                    Some(g) => seq![g],
                    None => Seq::<(Seq<u8>, AudioFieldsV)>::empty(),
                })) =~= (seq![kept] + sp_audio_list(items.drop_first(), prog)) + (match sp_keep(
                    x,
                    prog,
                ) {
                    Some(g) => seq![g],
                    None => Seq::<(Seq<u8>, AudioFieldsV)>::empty(),
                }));
            },
            None => {
            },
        }
    }
}

/// A finished description carries a kept candidate's URL and fields.
pub open spec fn stream_matches(ad: YtAudioData, kept: (Seq<u8>, AudioFieldsV)) -> bool {
    ad.url@ == decode_utf8(kept.0) && audio_matches(ad, kept.1)
}

/// Resolve a whole candidate array into audio descriptions, in order,
/// skipping — never failing over — candidates off the allow-list,
/// candidates that do not resolve, and candidates missing a numeric
/// field. Every survivor's format id is on the allow-list.
pub fn get_urls(arr: &Vec<Json>, prog: &Vec<CipherFunction>) -> (r: Vec<YtAudioData>)
    ensures
        r@.len() == sp_audio_list(jv_of_items(arr@), prog@).len(),
        forall|k: int|
            0 <= k < r@.len() ==> stream_matches(r@[k], sp_audio_list(jv_of_items(arr@), prog@)[k]),
        forall|k: int| 0 <= k < r@.len() ==> spec_audio_itag(r@[k].itag as int),
    decreases arr@.len(),
{
    let ghost all = jv_of_items(arr@);
    proof {
        crate::json::lemma_jv_of_items(arr@);
        assert(all.take(0) =~= Seq::<JsonV>::empty());
    }
    let mut out: Vec<YtAudioData> = Vec::new();
    let mut i: usize = 0;
    while i < arr.len()
        invariant
            i <= arr@.len(),
            all == jv_of_items(arr@),
            all.len() == arr@.len(),
            out@.len() == sp_audio_list(all.take(i as int), prog@).len(),
            forall|k: int|
                0 <= k < out@.len() ==> stream_matches(
                    out@[k],
                    sp_audio_list(all.take(i as int), prog@)[k],
                ),
            forall|k: int| 0 <= k < out@.len() ==> spec_audio_itag(out@[k].itag as int),
        decreases arr@.len() - i,
    {
        proof {
            crate::json::lemma_jv_of_items(arr@);
            assert(all.take(i + 1) =~= all.take(i as int).push(all[i as int]));
            lemma_sp_audio_list_push(all.take(i as int), all[i as int], prog@);
        }
        let it = &arr[i];
        match it.get("itag".as_bytes()) {
            Some(j) => {
                match j.as_u64() {
                    Some(n) => {
                        if is_audio_itag(n) {
                            match get_url(it, prog) {
                                Ok(ad) => {
                                    proof {
                                        let kept = sp_keep(all[i as int], prog@).unwrap();
                                        assert(kept.1.itag == sp_audio_fields(
                                            all[i as int],
                                        ).unwrap().itag);
                                    }
                                    out.push(ad);
                                },
                                Err(_) => {
                                },
                            }
                        }
                    },
                    None => {
                    },
                }
            },
            None => {
            },
        }
        i = i + 1;
    }
    proof {
        assert(all.take(i as int) =~= all);
    }
    out
}

/// The audio list a whole watch page denotes: the streaming metadata's
/// adaptive candidates, then its combined candidates; absent either list
/// contributes nothing. `None` when the streaming metadata itself is
/// absent — the platform's signal for a restricted, private, removed or
/// otherwise unavailable video.
pub open spec fn sp_streams(root: JsonV, prog: Seq<CipherFunction>) -> Option<
    Seq<(Seq<u8>, AudioFieldsV)>,
> {
    match jv_get(root, "streamingData".spec_bytes()) {
        None => None,
        Some(sd) => {
            let l1 = match jv_get(sd, "adaptiveFormats".spec_bytes()) {
                Some(JsonV::Arr(a)) => sp_audio_list(a, prog),
                _ => Seq::empty(),
            };
            let l2 = match jv_get(sd, "formats".spec_bytes()) {
                Some(JsonV::Arr(a)) => sp_audio_list(a, prog),
                _ => Seq::empty(),
            };
            Some(l1 + l2)
        },
    }
}

/// Resolve a watch page's candidates into audio descriptions: the
/// adaptive list first, then the combined list. Fails exactly when the
/// page carries no streaming metadata — the expected, typed signal for a
/// restricted, private, removed or otherwise unavailable video.
pub fn audio_urls(player: &Json, prog: &Vec<CipherFunction>) -> (r: Result<
    Vec<YtAudioData>,
    ErrorExtractor,
>)
    ensures
        match r {
            Ok(list) => (match sp_streams(player@, prog@) {
                Some(streams) => list@.len() == streams.len() && (forall|k: int|
                    0 <= k < list@.len() ==> stream_matches(list@[k], streams[k])) && (forall|
                    k: int,
                |
                    0 <= k < list@.len() ==> spec_audio_itag(list@[k].itag as int)),
                None => false,
            }),
            Err(e) => sp_streams(player@, prog@) is None && e matches
                ErrorExtractor::ErrorParsing(_),
        },
{
    let sd = match player.get("streamingData".as_bytes()) {
        Some(sd) => sd,
        None => {
            return Err(
                ErrorExtractor::ErrorParsing(String::from_str("Missing 'streamingData'")),
            );
        },
    };
    let mut list: Vec<YtAudioData> = match sd.get("adaptiveFormats".as_bytes()) {
        Some(af) => match af.arr_items() {
            Some(arr) => get_urls(arr, prog),
            None => Vec::new(),
        },
        None => Vec::new(),
    };
    let mut more: Vec<YtAudioData> = match sd.get("formats".as_bytes()) {
        Some(f) => match f.arr_items() {
            Some(arr) => get_urls(arr, prog),
            None => Vec::new(),
        },
        None => Vec::new(),
    };
    let ghost l1 = list@;
    let ghost l2 = more@;
    list.append(&mut more);
    proof {
        assert(list@ =~= l1 + l2);
    }
    Ok(list)
}

/// Pick the best audio description: the greatest bitrate, the first seen
/// winning ties. Fails exactly on an empty list.
pub fn pick_best(list: Vec<YtAudioData>) -> (r: Result<YtAudioData, ErrorExtractor>)
    ensures
        match r {
            Ok(ad) => {
                &&& list@.len() > 0
                &&& exists|i: int|
                    0 <= i < list@.len() && ad == list@[i] && (forall|j: int|
                        0 <= j < i ==> list@[j].bitrate < ad.bitrate)
                &&& forall|j: int| 0 <= j < list@.len() ==> list@[j].bitrate <= ad.bitrate
            },
            Err(e) => list@.len() == 0 && e matches ErrorExtractor::ErrorParsing(_),
        },
{
    if list.len() == 0 {
        return Err(ErrorExtractor::ErrorParsing(String::from_str("No audio found")));
    }
    let mut bi: usize = 0;
    let mut best: u32 = list[0].bitrate;
    let mut k: usize = 1;
    while k < list.len()
        invariant
            bi < k <= list@.len(),
            best == list@[bi as int].bitrate,
            forall|j: int| 0 <= j < k ==> list@[j].bitrate <= best,
            forall|j: int| 0 <= j < bi ==> list@[j].bitrate < best,
        decreases list@.len() - k,
    {
        if list[k].bitrate > best {
            bi = k;
            best = list[k].bitrate;
        }
        k = k + 1;
    }
    let mut list = list;
    let ad = list.remove(bi);
    Ok(ad)
}

/// Judge the liveness probe of a chosen URL: the probe's status where
/// the transport carried one, nothing where it failed. Only a success
/// status lets the description through; everything else becomes the
/// typed error a caller can act on, instead of a later playback failure.
pub fn probe_outcome(status: Option<u16>, ad: YtAudioData) -> (r: Result<
    YtAudioData,
    ErrorExtractor,
>)
    ensures
        match status {
            Some(200u16) => r matches Ok(out) && out == ad,
            Some(_) => r matches Err(e) && e matches ErrorExtractor::ErrorParsing(_),
            None => r matches Err(e) && e matches ErrorExtractor::ErrorReqwest,
        },
{
    match status {
        Some(code) => {
            if code == 200 {
                Ok(ad)
            } else {
                Err(ErrorExtractor::ErrorParsing(String::from_str("The stream is not reachable")))
            }
        },
        None => Err(ErrorExtractor::ErrorReqwest),
    }
}

} // verus!
