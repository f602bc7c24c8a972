//! Extraction of media metadata and playable audio links from a video
//! platform's public pages: locating embedded JSON state inside HTML,
//! navigating the parsed tree, recovering the platform's signature cipher
//! program from its client script, decoding signatures, and selecting the
//! best audio stream. The library computes over raw page bytes; fetching
//! pages and probing a chosen URL are its callers' work, and their
//! results come back in as plain values.

use vstd::prelude::*;
use vstd::string::StringSliceAdditionalSpecFns;

pub mod audio;
pub mod cipher;
pub mod extractor;
pub mod info;
pub mod json;
pub mod locator;
pub mod playlist;
pub mod scan;
pub mod search;
pub mod text;
pub mod urlcode;
pub mod web;

verus! {

/// Encoding a non-empty text gives bytes.
proof fn lemma_encode_nonempty(chars: Seq<char>)
    requires
        chars.len() > 0,
    ensures
        vstd::utf8::encode_utf8(chars).len() > 0,
{
    assert(vstd::utf8::encode_utf8(chars) == vstd::utf8::encode_scalar(chars[0] as u32)
        + vstd::utf8::encode_utf8(chars.drop_first()));
}

/// The search page address for a query: the platform's results path, the
/// percent-encoded query, and the flags that skip consent and
/// verification interstitials.
pub fn search_url(query: &[u8]) -> (r: Vec<u8>)
    ensures
        r@ == "https://www.youtube.com/results?search_query=".spec_bytes()
            + crate::urlcode::sp_pct_encode(query@)
            + "&bpctr=9999999999&has_verified=1".spec_bytes(),
{
    let mut u = vstd::slice::slice_to_vec(
        "https://www.youtube.com/results?search_query=".as_bytes(),
    );
    let mut q = crate::urlcode::pct_encode(query);
    let mut tail = vstd::slice::slice_to_vec("&bpctr=9999999999&has_verified=1".as_bytes());
    u.append(&mut q);
    u.append(&mut tail);
    u
}

/// The watch page address for a video id, with the same interstitial
/// flags.
pub fn watch_url(id: &[u8]) -> (r: Vec<u8>)
    ensures
        r@ == "https://www.youtube.com/watch?v=".spec_bytes() + id@
            + "&bpctr=9999999999&has_verified=1".spec_bytes(),
{
    let mut u = vstd::slice::slice_to_vec("https://www.youtube.com/watch?v=".as_bytes());
    let mut i = vstd::slice::slice_to_vec(id);
    let mut tail = vstd::slice::slice_to_vec("&bpctr=9999999999&has_verified=1".as_bytes());
    u.append(&mut i);
    u.append(&mut tail);
    u
}

/// Parse a fetched search page into its ordered video summaries: locate
/// the page's embedded state, navigate it, and read each result item,
/// skipping the items that are no complete video entries. Every summary's
/// id has the platform's fixed id format. Fails only when the embedded
/// state cannot be located or does not have the search shape.
pub fn search_videos_from_page(page: &[u8]) -> (r: Result<
    Vec<crate::info::YtVideoPageInfo>,
    crate::info::ErrorExtractor,
>)
    ensures
        match r {
            Ok(list) => match crate::locator::sp_var_outcome(
                page@,
                "var ytInitialData".spec_bytes(),
            ) {
                Some(root) => match crate::search::sp_search_items(root) {
                    Some(items) => {
                        &&& list@.len() == crate::search::sp_summaries(items).len()
                        &&& forall|k: int|
                            0 <= k < list@.len() ==> crate::search::info_matches(
                                list@[k],
                                crate::search::sp_summaries(items)[k],
                            )
                        &&& forall|k: int|
                            0 <= k < list@.len() ==> crate::search::valid_video_id_chars(
                                list@[k].id@,
                            )
                    },
                    None => false,
                },
                None => false,
            },
            Err(e) => (match crate::locator::sp_var_outcome(
                page@,
                "var ytInitialData".spec_bytes(),
            ) {
                None => true,
                Some(root) => crate::search::sp_search_items(root) is None,
            }) && e matches crate::info::ErrorExtractor::ErrorParsing(_),
        },
{
    let marker = "var ytInitialData".as_bytes();
    proof {
        reveal_strlit("var ytInitialData");
        lemma_encode_nonempty("var ytInitialData"@);
    }
    let root = match crate::locator::get_var(page, marker) {
        Ok(root) => root,
        Err(e) => {
            return Err(e);
        },
    };
    crate::search::videos_search_info(&root)
}

/// Resolve the best audio stream from a fetched watch page and the
/// platform's fetched client script, with no network of its own: locate
/// the page's streaming state, recover the cipher program from the
/// script, resolve the allow-listed candidates, and pick the greatest
/// bitrate, first seen winning ties. The chosen stream's format id is
/// always on the audio-only allow-list. Fails, with a typed error and
/// never a partial URL, exactly when the streaming state is absent (a
/// restricted, private, removed or unavailable video), the cipher program
/// cannot be recovered, or no candidate survives.
pub fn best_audio_from_pages(watch_page: &[u8], js: &[u8]) -> (r: Result<
    crate::info::YtAudioData,
    crate::info::ErrorExtractor,
>)
    ensures
        match r {
            Ok(ad) => match crate::locator::sp_var_outcome(
                watch_page@,
                "var ytInitialPlayerResponse".spec_bytes(),
            ) {
                Some(root) => match crate::extractor::sp_cipher_program(js@) {
                    Some(prog) => match crate::audio::sp_streams(root, prog) {
                        Some(streams) => {
                            &&& streams.len() > 0
                            &&& crate::audio::spec_audio_itag(ad.itag as int)
                            &&& exists|i: int|
                                0 <= i < streams.len() && crate::audio::stream_matches(
                                    ad,
                                    streams[i],
                                ) && (forall|j: int|
                                    0 <= j < i ==> streams[j].1.bitrate < ad.bitrate)
                            &&& forall|j: int|
                                0 <= j < streams.len() ==> streams[j].1.bitrate <= ad.bitrate
                        },
                        None => false,
                    },
                    None => false,
                },
                None => false,
            },
            Err(e) => match crate::locator::sp_var_outcome(
                watch_page@,
                "var ytInitialPlayerResponse".spec_bytes(),
            ) {
                None => e matches crate::info::ErrorExtractor::ErrorParsing(_),
                Some(root) => match crate::extractor::sp_cipher_program(js@) {
                    None => e matches crate::info::ErrorExtractor::CipherExtractionFailed(_),
                    Some(prog) => match crate::audio::sp_streams(root, prog) {
                        None => e matches crate::info::ErrorExtractor::ErrorParsing(_),
                        Some(streams) => streams.len() == 0 && e matches
                            crate::info::ErrorExtractor::ErrorParsing(_),
                    },
                },
            },
        },
{
    let marker = "var ytInitialPlayerResponse".as_bytes();
    proof {
        reveal_strlit("var ytInitialPlayerResponse");
        lemma_encode_nonempty("var ytInitialPlayerResponse"@);
    }
    let root = match crate::locator::get_var(watch_page, marker) {
        Ok(root) => root,
        Err(e) => {
            return Err(e);
        },
    };
    let prog = match crate::extractor::get_cipher_fun(js) {
        Ok(prog) => prog,
        Err(e) => {
            return Err(e);
        },
    };
    let list = match crate::audio::audio_urls(&root, &prog) {
        Ok(list) => list,
        Err(e) => {
            return Err(e);
        },
    };
    let ghost lv = list@;
    let ghost streams = crate::audio::sp_streams(root@, prog@).unwrap();
    match crate::audio::pick_best(list) {
        Ok(ad) => {
            proof {
                let i = choose|i: int|
                    0 <= i < lv.len() && ad == lv[i] && (forall|j: int|
                        0 <= j < i ==> lv[j].bitrate < ad.bitrate);
                assert(crate::audio::stream_matches(ad, streams[i]));
                assert forall|j: int| 0 <= j < i implies streams[j].1.bitrate < ad.bitrate by {
                    assert(crate::audio::stream_matches(lv[j], streams[j]));
                }
                assert forall|j: int| 0 <= j < streams.len() implies streams[j].1.bitrate
                    <= ad.bitrate by {
                    assert(crate::audio::stream_matches(lv[j], streams[j]));
                }
            }
            Ok(ad)
        },
        Err(e) => Err(e),
    }
}

} // verus!
