//! The search page parser: navigate the page's JSON tree down the fixed
//! key chain to the result items, and read each item into a video
//! summary. Items that are no videos, miss a required field, carry no
//! duration (a live broadcast), or carry an ill-formed video id are
//! skipped one by one; a batch never fails because of one item.

use vstd::prelude::*;
use vstd::string::StringSliceAdditionalSpecFns;
use vstd::utf8::decode_utf8;
use vstd::utf8::valid_utf8;
use crate::info::ErrorExtractor;
use crate::info::YtAuthorInfo;
use crate::info::YtVideoPageInfo;
use crate::json::Json;
use crate::json::JsonV;
use crate::json::jv_get;
use crate::json::jv_index;
use crate::json::jv_of_items;
use crate::text::ascii_bytes;
use crate::text::ascii_chars_of;
use crate::text::lemma_ascii_decode;
use crate::text::string_from_utf8;

verus! {

/// A byte the platform's video ids are made of: a letter, a digit, `-` or
/// `_`.
pub open spec fn is_id_byte(b: u8) -> bool {
    (0x30 <= b <= 0x39) || (0x41 <= b <= 0x5a) || (0x61 <= b <= 0x7a) || b == 0x2d || b == 0x5f
}

/// The platform's fixed video id format: exactly eleven bytes, each a
/// letter, a digit, `-` or `_`.
pub open spec fn valid_video_id(b: Seq<u8>) -> bool {
    b.len() == 11 && forall|k: int| 0 <= k < b.len() ==> is_id_byte(b[k])
}

/// A character the platform's video ids are made of.
pub open spec fn is_id_char(c: char) -> bool {
    ('0' <= c <= '9') || ('A' <= c <= 'Z') || ('a' <= c <= 'z') || c == '-' || c == '_'
}

/// The id format, over the characters of a finished summary.
pub open spec fn valid_video_id_chars(s: Seq<char>) -> bool {
    s.len() == 11 && forall|k: int| 0 <= k < s.len() ==> is_id_char(s[k])
}

/// A well-formed id's bytes decode to well-formed id characters.
pub proof fn lemma_valid_id_decode(b: Seq<u8>)
    requires
        valid_video_id(b),
    ensures
        valid_utf8(b),
        valid_video_id_chars(decode_utf8(b)),
{
    assert(ascii_bytes(b));
    lemma_ascii_decode(b);
    assert forall|k: int| 0 <= k < decode_utf8(b).len() implies is_id_char(decode_utf8(b)[k]) by {
        assert(decode_utf8(b)[k] == ascii_chars_of(b)[k]);
        assert(is_id_byte(b[k]));
    }
}

/// Does this byte string hold a well-formed video id?
pub fn check_video_id(b: &[u8]) -> (r: bool)
    ensures
        r == valid_video_id(b@),
{
    if b.len() != 11 {
        return false;
    }
    let mut k: usize = 0;
    while k < b.len()
        invariant
            k <= b@.len(),
            b@.len() == 11,
            forall|m: int| 0 <= m < k ==> is_id_byte(b@[m]),
        decreases b@.len() - k,
    {
        let c = b[k];
        if !((0x30 <= c && c <= 0x39) || (0x41 <= c && c <= 0x5a) || (0x61 <= c && c <= 0x7a) || c
            == 0x2d || c == 0x5f) {
            return false;
        }
        k = k + 1;
    }
    true
}

/// One step of navigation under an optional tree.
pub open spec fn jv_get_opt(j: Option<JsonV>, key: Seq<u8>) -> Option<JsonV> {
    match j {
        Some(x) => jv_get(x, key),
        None => None,
    }
}

/// One step of indexing under an optional tree.
pub open spec fn jv_index_opt(j: Option<JsonV>, i: int) -> Option<JsonV> {
    match j {
        Some(x) => jv_index(x, i),
        None => None,
    }
}

/// The bytes of an optional tree that is a string.
pub open spec fn jv_str_opt(j: Option<JsonV>) -> Option<Seq<u8>> {
    match j {
        Some(JsonV::Str(t)) => Some(t),
        _ => None,
    }
}

/// The result items of a search page: the array under the page's fixed
/// key chain.
pub open spec fn sp_search_items(root: JsonV) -> Option<Seq<JsonV>> {
    let items = jv_get_opt(
        jv_get_opt(
            jv_index_opt(
                jv_get_opt(
                    jv_get_opt(
                        jv_get_opt(
                            jv_get_opt(
                                jv_get_opt(Some(root), "contents".spec_bytes()),
                                "twoColumnSearchResultsRenderer".spec_bytes(),
                            ),
                            "primaryContents".spec_bytes(),
                        ),
                        "sectionListRenderer".spec_bytes(),
                    ),
                    "contents".spec_bytes(),
                ),
                0,
            ),
            "itemSectionRenderer".spec_bytes(),
        ),
        "contents".spec_bytes(),
    );
    match items {
        Some(JsonV::Arr(arr)) => Some(arr),
        _ => None,
    }
}

/// The text fields read out of one search result item.
pub struct VideoFieldsV {
    pub id: Seq<u8>,
    pub title: Seq<u8>,
    pub thumbnail: Seq<u8>,
    pub author_name: Seq<u8>,
    pub author_thumbnail: Seq<u8>,
    pub n_views: Seq<u8>,
    pub duration: Seq<u8>,
}

/// The fields of one search result item, when it is a video entry whose
/// required fields are all present, whose id is well-formed, and whose
/// texts are valid UTF-8; `None` otherwise, and the item is skipped.
pub open spec fn sp_video_info(item: JsonV) -> Option<VideoFieldsV> {
    match jv_get(item, "videoRenderer".spec_bytes()) {
        None => None,
        Some(vr) => {
            let id = jv_str_opt(jv_get(vr, "videoId".spec_bytes()));
            let title = jv_str_opt(
                jv_get_opt(
                    jv_index_opt(
                        jv_get_opt(jv_get(vr, "title".spec_bytes()), "runs".spec_bytes()),
                        0,
                    ),
                    "text".spec_bytes(),
                ),
            );
            let thumbnail = jv_str_opt(
                jv_get_opt(
                    jv_index_opt(
                        jv_get_opt(
                            jv_get(vr, "thumbnail".spec_bytes()),
                            "thumbnails".spec_bytes(),
                        ),
                        0,
                    ),
                    "url".spec_bytes(),
                ),
            );
            let author_name = jv_str_opt(
                jv_get_opt(
                    jv_index_opt(
                        jv_get_opt(jv_get(vr, "ownerText".spec_bytes()), "runs".spec_bytes()),
                        0,
                    ),
                    "text".spec_bytes(),
                ),
            );
            let author_thumbnail = jv_str_opt(
                jv_get_opt(
                    jv_index_opt(
                        jv_get_opt(
                            jv_get_opt(
                                jv_get_opt(
                                    jv_get(
                                        vr,
                                        "channelThumbnailSupportedRenderers".spec_bytes(),
                                    ),
                                    "channelThumbnailWithLinkRenderer".spec_bytes(),
                                ),
                                "thumbnail".spec_bytes(),
                            ),
                            "thumbnails".spec_bytes(),
                        ),
                        0,
                    ),
                    "url".spec_bytes(),
                ),
            );
            let n_views = jv_str_opt(
                jv_get_opt(jv_get(vr, "viewCountText".spec_bytes()), "simpleText".spec_bytes()),
            );
            let duration = jv_str_opt(
                jv_get_opt(jv_get(vr, "lengthText".spec_bytes()), "simpleText".spec_bytes()),
            );
            match (id, title, thumbnail, author_name, author_thumbnail, n_views, duration) {
                (
                    Some(id),
                    Some(title),
                    Some(thumbnail),
                    Some(author_name),
                    Some(author_thumbnail),
                    Some(n_views),
                    Some(duration),
                ) => if valid_video_id(id) && valid_utf8(title) && valid_utf8(thumbnail)
                    && valid_utf8(author_name) && valid_utf8(author_thumbnail) && valid_utf8(
                    n_views,
                ) && valid_utf8(duration) {
                    Some(
                        VideoFieldsV {
                            id,
                            title,
                            thumbnail,
                            author_name,
                            author_thumbnail,
                            n_views,
                            duration,
                        },
                    )
                } else {
                    None
                },
                _ => None,
            }
        },
    }
}

/// A finished summary carries exactly the fields read out of an item,
/// decoded from UTF-8, and empty text in the fields the platform's search
/// page does not populate.
pub open spec fn info_matches(info: YtVideoPageInfo, fv: VideoFieldsV) -> bool {
    &&& info.id@ == decode_utf8(fv.id)
    &&& info.title@ == decode_utf8(fv.title)
    &&& info.thumbnail@ == decode_utf8(fv.thumbnail)
    &&& info.author.name@ == decode_utf8(fv.author_name)
    &&& info.author.thumbnail@ == decode_utf8(fv.author_thumbnail)
    &&& info.n_views@ == decode_utf8(fv.n_views)
    &&& info.duration@ == decode_utf8(fv.duration)
    &&& info.short_recap@ == Seq::<char>::empty()
    &&& info.meta_description@ == Seq::<char>::empty()
    &&& info.date@ == Seq::<char>::empty()
    &&& info.author.tag@ == Seq::<char>::empty()
}

/// The summaries of a whole item sequence, in order, skipping the items
/// that yield none.
pub open spec fn sp_summaries(items: Seq<JsonV>) -> Seq<VideoFieldsV>
    decreases items.len(),
{
    if items.len() == 0 {
        Seq::empty()
    } else {
        match sp_video_info(items[0]) {
            Some(fv) => seq![fv] + sp_summaries(items.drop_first()),
            None => sp_summaries(items.drop_first()),
        }
    }
}

/// Extending the items by one extends the summaries by that item's
/// outcome.
proof fn lemma_sp_summaries_push(items: Seq<JsonV>, x: JsonV)
    ensures
        sp_summaries(items.push(x)) == sp_summaries(items) + (match sp_video_info(x) {
            Some(fv) => seq![fv],
            None => Seq::<VideoFieldsV>::empty(),
        }),
    decreases items.len(),
{
    if items.len() == 0 {
        assert(items.push(x).drop_first() =~= Seq::<JsonV>::empty());
        assert(items.push(x)[0] == x);
        assert(sp_summaries(items.push(x).drop_first()) =~= Seq::<VideoFieldsV>::empty());
        match sp_video_info(x) {
            Some(fv) => {
                assert(sp_summaries(items.push(x)) =~= seq![fv]);
                assert(sp_summaries(items) + seq![fv] =~= seq![fv]);
            },
            None => {
                assert(sp_summaries(items.push(x)) =~= Seq::<VideoFieldsV>::empty());
                assert(sp_summaries(items) + Seq::<VideoFieldsV>::empty()
                    =~= Seq::<VideoFieldsV>::empty());
            },
        }
    } else {
        assert(items.push(x)[0] == items[0]);
        assert(items.push(x).drop_first() =~= items.drop_first().push(x));
        lemma_sp_summaries_push(items.drop_first(), x);
        match sp_video_info(items[0]) {
            Some(fv) => {
                assert(sp_summaries(items.push(x)) == seq![fv] + sp_summaries(
                    items.drop_first().push(x),
                ));
                assert(seq![fv] + (sp_summaries(items.drop_first()) + (match sp_video_info(x) {
                    Some(g) => seq![g],
                    None => Seq::<VideoFieldsV>::empty(),
                })) =~= (seq![fv] + sp_summaries(items.drop_first())) + (match sp_video_info(x) {
                    Some(g) => seq![g],
                    None => Seq::<VideoFieldsV>::empty(),
                }));
            },
            None => {
            },
        }
    }
}

/// A copy of the bytes of a string value.
fn str_copy(j: &Json) -> (r: Option<Vec<u8>>)
    ensures
        match r {
            Some(t) => jv_str_opt(Some(j@)) == Some(t@),
            None => jv_str_opt(Some(j@)) is None,
        },
{
    match j.str_bytes() {
        Some(t) => Some(vstd::slice::slice_to_vec(t.as_slice())),
        None => None,
    }
}

/// Navigate a search page's tree down the fixed key chain to its result
/// items. Fails, naming the first missing link, when the page does not
/// have the search shape.
pub fn get_search_videos<'a>(root: &'a Json) -> (r: Result<&'a Vec<Json>, ErrorExtractor>)
    ensures
        match r {
            Ok(items) => sp_search_items(root@) == Some(jv_of_items(items@)),
            Err(e) => sp_search_items(root@) is None && e matches ErrorExtractor::ErrorParsing(_),
        },
{
    let s1 = match root.get("contents".as_bytes()) {
        Some(x) => x,
        None => {
            return Err(ErrorExtractor::ErrorParsing(String::from_str("Missing 'contents'")));
        },
    };
    let s2 = match s1.get("twoColumnSearchResultsRenderer".as_bytes()) {
        Some(x) => x,
        None => {
            return Err(
                ErrorExtractor::ErrorParsing(
                    String::from_str("Missing 'twoColumnSearchResultsRenderer'"),
                ),
            );
        },
    };
    let s3 = match s2.get("primaryContents".as_bytes()) {
        Some(x) => x,
        None => {
            return Err(
                ErrorExtractor::ErrorParsing(String::from_str("Missing 'primaryContents'")),
            );
        },
    };
    let s4 = match s3.get("sectionListRenderer".as_bytes()) {
        Some(x) => x,
        None => {
            return Err(
                ErrorExtractor::ErrorParsing(String::from_str("Missing 'sectionListRenderer'")),
            );
        },
    };
    let s5 = match s4.get("contents".as_bytes()) {
        Some(x) => x,
        None => {
            return Err(ErrorExtractor::ErrorParsing(String::from_str("Missing 'contents'")));
        },
    };
    let s6 = match s5.get_index(0) {
        Some(x) => x,
        None => {
            return Err(ErrorExtractor::ErrorParsing(String::from_str("Cannot get(0)")));
        },
    };
    let s7 = match s6.get("itemSectionRenderer".as_bytes()) {
        Some(x) => x,
        None => {
            return Err(
                ErrorExtractor::ErrorParsing(String::from_str("Missing 'itemSectionRenderer'")),
            );
        },
    };
    let s8 = match s7.get("contents".as_bytes()) {
        Some(x) => x,
        None => {
            return Err(ErrorExtractor::ErrorParsing(String::from_str("Missing 'contents'")));
        },
    };
    match s8.arr_items() {
        Some(items) => Ok(items),
        None => Err(ErrorExtractor::ErrorParsing(String::from_str("Not an array"))),
    }
}

/// Read one search result item into a video summary. An item that is no
/// video entry, misses a required field, carries no duration (a live
/// broadcast), carries an ill-formed id, or holds text that is not valid
/// UTF-8 yields nothing and is skipped by the caller.
pub fn get_video_info(v: &Json) -> (r: Option<YtVideoPageInfo>)
    ensures
        match sp_video_info(v@) {
            Some(fv) => r matches Some(info) && info_matches(info, fv),
            None => r is None,
        },
{
    let vr = match v.get("videoRenderer".as_bytes()) {
        Some(x) => x,
        None => {
            return None;
        },
    };
    let id_j = match vr.get("videoId".as_bytes()) {
        Some(x) => x,
        None => {
            return None;
        },
    };
    let id_b = match str_copy(id_j) {
        Some(b) => b,
        None => {
            return None;
        },
    };
    let t1 = match vr.get("title".as_bytes()) {
        Some(x) => x,
        None => {
            return None;
        },
    };
    let t2 = match t1.get("runs".as_bytes()) {
        Some(x) => x,
        None => {
            return None;
        },
    };
    let t3 = match t2.get_index(0) {
        Some(x) => x,
        None => {
            return None;
        },
    };
    let t4 = match t3.get("text".as_bytes()) {
        Some(x) => x,
        None => {
            return None;
        },
    };
    let title_b = match str_copy(t4) {
        Some(b) => b,
        None => {
            return None;
        },
    };
    let h1 = match vr.get("thumbnail".as_bytes()) {
        Some(x) => x,
        None => {
            return None;
        },
    };
    let h2 = match h1.get("thumbnails".as_bytes()) {
        Some(x) => x,
        None => {
            return None;
        },
    };
    let h3 = match h2.get_index(0) {
        Some(x) => x,
        None => {
            return None;
        },
    };
    let h4 = match h3.get("url".as_bytes()) {
        Some(x) => x,
        None => {
            return None;
        },
    };
    let thumb_b = match str_copy(h4) {
        Some(b) => b,
        None => {
            return None;
        },
    };
    let a1 = match vr.get("ownerText".as_bytes()) {
        Some(x) => x,
        None => {
            return None;
        },
    };
    let a2 = match a1.get("runs".as_bytes()) {
        Some(x) => x,
        None => {
            return None;
        },
    };
    let a3 = match a2.get_index(0) {
        Some(x) => x,
        None => {
            return None;
        },
    };
    let a4 = match a3.get("text".as_bytes()) {
        Some(x) => x,
        None => {
            return None;
        },
    };
    let author_b = match str_copy(a4) {
        Some(b) => b,
        None => {
            return None;
        },
    };
    let c1 = match vr.get("channelThumbnailSupportedRenderers".as_bytes()) {
        Some(x) => x,
        None => {
            return None;
        },
    };
    let c2 = match c1.get("channelThumbnailWithLinkRenderer".as_bytes()) {
        Some(x) => x,
        None => {
            return None;
        },
    };
    let c3 = match c2.get("thumbnail".as_bytes()) {
        Some(x) => x,
        None => {
            return None;
        },
    };
    let c4 = match c3.get("thumbnails".as_bytes()) {
        Some(x) => x,
        None => {
            return None;
        },
    };
    let c5 = match c4.get_index(0) {
        Some(x) => x,
        None => {
            return None;
        },
    };
    let c6 = match c5.get("url".as_bytes()) {
        Some(x) => x,
        None => {
            return None;
        },
    };
    let author_thumb_b = match str_copy(c6) {
        Some(b) => b,
        None => {
            return None;
        },
    };
    let v1 = match vr.get("viewCountText".as_bytes()) {
        Some(x) => x,
        None => {
            return None;
        },
    };
    let v2 = match v1.get("simpleText".as_bytes()) {
        Some(x) => x,
        None => {
            return None;
        },
    };
    let views_b = match str_copy(v2) {
        Some(b) => b,
        None => {
            return None;
        },
    };
    let d1 = match vr.get("lengthText".as_bytes()) {
        Some(x) => x,
        None => {
            return None;
        },
    };
    let d2 = match d1.get("simpleText".as_bytes()) {
        Some(x) => x,
        None => {
            return None;
        },
    };
    let dur_b = match str_copy(d2) {
        Some(b) => b,
        None => {
            return None;
        },
    };
    if !check_video_id(id_b.as_slice()) {
        return None;
    }
    let ghost id_bytes = id_b@;
    let id_s = match string_from_utf8(id_b) {
        Some(s) => s,
        None => {
            proof {
                lemma_valid_id_decode(id_bytes);
            }
            return None;
        },
    };
    let title_s = match string_from_utf8(title_b) {
        Some(s) => s,
        None => {
            return None;
        },
    };
    let thumb_s = match string_from_utf8(thumb_b) {
        Some(s) => s,
        None => {
            return None;
        },
    };
    let author_s = match string_from_utf8(author_b) {
        Some(s) => s,
        None => {
            return None;
        },
    };
    let author_thumb_s = match string_from_utf8(author_thumb_b) {
        Some(s) => s,
        None => {
            return None;
        },
    };
    let views_s = match string_from_utf8(views_b) {
        Some(s) => s,
        None => {
            return None;
        },
    };
    let dur_s = match string_from_utf8(dur_b) {
        Some(s) => s,
        None => {
            return None;
        },
    };
    Some(
        YtVideoPageInfo {
            id: id_s,
            short_recap: String::new(),
            title: title_s,
            thumbnail: thumb_s,
            author: YtAuthorInfo { name: author_s, thumbnail: author_thumb_s, tag: String::new() },
            meta_description: String::new(),
            duration: dur_s,
            n_views: views_s,
            date: String::new(),
        },
    )
}

/// Parse a whole search page tree into its ordered video summaries,
/// skipping the items that yield none. Every id in the result has the
/// platform's fixed id format. Fails only when the page does not have the
/// search shape at all.
pub fn videos_search_info(root: &Json) -> (r: Result<Vec<YtVideoPageInfo>, ErrorExtractor>)
    ensures
        match r {
            Ok(list) => {
                &&& sp_search_items(root@) matches Some(items)
                &&& list@.len() == sp_summaries(items).len()
                &&& forall|k: int|
                    0 <= k < list@.len() ==> info_matches(list@[k], sp_summaries(items)[k])
                &&& forall|k: int| 0 <= k < list@.len() ==> valid_video_id_chars(list@[k].id@)
            },
            Err(e) => sp_search_items(root@) is None && e matches ErrorExtractor::ErrorParsing(_),
        },
{
    let items = match get_search_videos(root) {
        Ok(items) => items,
        Err(e) => {
            return Err(e);
        },
    };
    let ghost all = jv_of_items(items@);
    proof {
        crate::json::lemma_jv_of_items(items@);
        assert(all.take(0) =~= Seq::<JsonV>::empty());
    }
    let mut out: Vec<YtVideoPageInfo> = Vec::new();
    let mut i: usize = 0;
    while i < items.len()
        invariant
            i <= items@.len(),
            all == jv_of_items(items@),
            all.len() == items@.len(),
            sp_search_items(root@) == Some(all),
            out@.len() == sp_summaries(all.take(i as int)).len(),
            forall|k: int|
                0 <= k < out@.len() ==> info_matches(out@[k], sp_summaries(all.take(i as int))[k]),
            forall|k: int| 0 <= k < out@.len() ==> valid_video_id_chars(out@[k].id@),
        decreases items@.len() - i,
    {
        proof {
            crate::json::lemma_jv_of_items(items@);
            assert(all.take(i + 1) =~= all.take(i as int).push(all[i as int]));
            lemma_sp_summaries_push(all.take(i as int), all[i as int]);
        }
        let ghost prev = sp_summaries(all.take(i as int));
        match get_video_info(&items[i]) {
            Some(info) => {
                proof {
                    let fv = sp_video_info(all[i as int]).unwrap();
                    lemma_valid_id_decode(fv.id);
                }
                out.push(info);
            },
            None => {
            },
        }
        i = i + 1;
    }
    proof {
        assert(all.take(i as int) =~= all);
    }
    Ok(out)
}

} // verus!
