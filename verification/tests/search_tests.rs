use jukebox::search_videos_from_page;

fn item(id: &str, title: &str, with_length: bool) -> String {
    let length = if with_length {
        r#","lengthText":{"simpleText":"3:32"}"#
    } else {
        ""
    };
    format!(
        r#"{{"videoRenderer":{{"videoId":"{}","title":{{"runs":[{{"text":"{}"}}]}},"thumbnail":{{"thumbnails":[{{"url":"https://i.example/{}.jpg"}}]}},"ownerText":{{"runs":[{{"text":"Some Channel"}}]}},"channelThumbnailSupportedRenderers":{{"channelThumbnailWithLinkRenderer":{{"thumbnail":{{"thumbnails":[{{"url":"https://i.example/ch.jpg"}}]}}}}}},"viewCountText":{{"simpleText":"1M views"}}{}}}}}"#,
        id, title, id, length
    )
}

fn search_page(items: &[String]) -> Vec<u8> {
    let mut page = String::new();
    page.push_str("<html><script>var ytInitialData = {\"contents\":{\"twoColumnSearchResultsRenderer\":{\"primaryContents\":{\"sectionListRenderer\":{\"contents\":[{\"itemSectionRenderer\":{\"contents\":[");
    page.push_str(&items.join(","));
    page.push_str("]}}]}}}}};</script></html>");
    page.into_bytes()
}

#[test]
fn reads_complete_video_entries() {
    let page = search_page(&[
        item("dQw4w9WgXcQ", "First Video", true),
        item("YbJOTdZBX1g", "Second \\u0026 Video", true),
    ]);
    let list = search_videos_from_page(&page).unwrap();
    assert_eq!(list.len(), 2);
    assert_eq!(list[0].id, "dQw4w9WgXcQ");
    assert_eq!(list[0].title, "First Video");
    assert_eq!(list[0].thumbnail, "https://i.example/dQw4w9WgXcQ.jpg");
    assert_eq!(list[0].author.name, "Some Channel");
    assert_eq!(list[0].author.thumbnail, "https://i.example/ch.jpg");
    assert_eq!(list[0].n_views, "1M views");
    assert_eq!(list[0].duration, "3:32");
    assert_eq!(list[0].short_recap, "");
    assert_eq!(list[0].meta_description, "");
    assert_eq!(list[0].date, "");
    assert_eq!(list[1].title, "Second & Video");
}

#[test]
fn every_returned_id_has_the_fixed_format() {
    let page = search_page(&[
        item("aaaaaaaaaaa", "Ok", true),
        item("bad id!", "Rejected id", true),
        item("short", "Too short", true),
        item("0-9_AZaz0-9", "Ok too", true),
    ]);
    let list = search_videos_from_page(&page).unwrap();
    assert_eq!(list.len(), 2);
    for v in &list {
        assert_eq!(v.id.len(), 11);
        assert!(v
            .id
            .chars()
            .all(|c| c.is_ascii_alphanumeric() || c == '-' || c == '_'));
    }
}

#[test]
fn non_video_shelves_and_live_entries_are_skipped() {
    let shelf = String::from(r#"{"shelfRenderer":{"title":"Shelf"}}"#);
    let page = search_page(&[
        shelf,
        item("dQw4w9WgXcQ", "Kept", true),
        item("YbJOTdZBX1g", "Live one", false),
    ]);
    let list = search_videos_from_page(&page).unwrap();
    assert_eq!(list.len(), 1);
    assert_eq!(list[0].title, "Kept");
}

#[test]
fn an_empty_item_list_yields_an_empty_result() {
    let page = search_page(&[]);
    let list = search_videos_from_page(&page).unwrap();
    assert!(list.is_empty());
}

#[test]
fn a_page_without_the_search_shape_is_an_error() {
    let page = b"<html><script>var ytInitialData = {\"contents\":{}};</script></html>";
    assert!(search_videos_from_page(page).is_err());
}

#[test]
fn summaries_with_equal_ids_are_the_same_entity() {
    let page = search_page(&[
        item("dQw4w9WgXcQ", "One title", true),
        item("dQw4w9WgXcQ", "Another title", true),
    ]);
    let list = search_videos_from_page(&page).unwrap();
    assert_eq!(list.len(), 2);
    assert_eq!(list[0], list[1]);
}
