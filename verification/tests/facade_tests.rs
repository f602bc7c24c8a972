use jukebox::{best_audio_from_pages, search_url, watch_url};

const SCRIPT: &str = "xy=function(a){a=a.split(\"\");Wc.sw(a,1);Wc.sl(a,2);Wc.rv(a,0);return a.join(\"\")};var Wc={sw:function(a,b){var c=a[0];a[0]=a[b%a.length];a[b%a.length]=c},\nsl:function(a,b){a.splice(0,b)},\nrv:function(a){a.reverse()}};";

fn watch_page(player_response: &str) -> Vec<u8> {
    let mut page = String::new();
    page.push_str("<html><script>var ytInitialPlayerResponse = ");
    page.push_str(player_response);
    page.push_str(";</script><script>other</script></html>");
    page.into_bytes()
}

#[test]
fn end_to_end_network_free_best_audio() {
    // Two candidates survive the allow-list: a plain URL at a low
    // bitrate and a ciphered one at a higher bitrate. The signature
    // `fedcba` goes through swap, slice and reverse to `abcd`, and the
    // decoded URL must come out byte for byte.
    let pr = r#"{"streamingData":{"adaptiveFormats":[{"itag":299,"bitrate":9999999,"audioSampleRate":"44100","audioChannels":2,"url":"https://cdn.example/video-only"},{"itag":139,"bitrate":50000,"audioSampleRate":"22050","audioChannels":2,"url":"https%3A%2F%2Fcdn.example%2Flow"},{"itag":140,"bitrate":130000,"audioSampleRate":"44100","audioChannels":2,"approxDurationMs":"218871","loudnessDb":-2.5,"signatureCipher":"s=fedcba&sp=sig&url=https%3A%2F%2Fcdn.example%2Faudio%3Fitag%3D140"}]}}"#;
    let page = watch_page(pr);
    let ad = best_audio_from_pages(&page, SCRIPT.as_bytes()).unwrap();
    assert_eq!(ad.url, "https://cdn.example/audio?itag=140&sig=abcd");
    assert_eq!(ad.itag, 140);
    assert_eq!(ad.bitrate, 130000);
    assert_eq!(ad.sample_rate, 44100);
    assert_eq!(ad.channels, 2);
    assert_eq!(ad.ms_duration, Some(218871));
    assert_eq!(ad.loudness_db.as_deref(), Some("-2.5"));
}

#[test]
fn a_restricted_video_yields_a_typed_error() {
    // The platform withholds the streaming metadata for restricted,
    // private and removed videos; the outcome is an error value, never a
    // crash and never a partial URL.
    let page = watch_page(r#"{"playabilityStatus":{"status":"LOGIN_REQUIRED"}}"#);
    let r = best_audio_from_pages(&page, SCRIPT.as_bytes());
    assert!(r.is_err());
}

#[test]
fn a_page_without_the_player_state_is_a_typed_error() {
    let page = b"<html><script>nothing embedded here</script></html>";
    assert!(best_audio_from_pages(page, SCRIPT.as_bytes()).is_err());
}

#[test]
fn a_script_without_the_cipher_is_a_typed_error() {
    let pr = r#"{"streamingData":{"adaptiveFormats":[{"itag":140,"bitrate":1,"audioSampleRate":"1","audioChannels":1,"url":"https://cdn.example/a"}]}}"#;
    let page = watch_page(pr);
    let r = best_audio_from_pages(&page, b"no cipher in here");
    assert!(r.is_err());
}

#[test]
fn an_empty_candidate_list_is_a_typed_error() {
    let page = watch_page(r#"{"streamingData":{"adaptiveFormats":[]}}"#);
    let r = best_audio_from_pages(&page, SCRIPT.as_bytes());
    assert!(r.is_err());
}

#[test]
fn builds_the_search_address_with_the_query_encoded() {
    let u = search_url("dig dug & co".as_bytes());
    assert_eq!(
        String::from_utf8(u).unwrap(),
        "https://www.youtube.com/results?search_query=dig%20dug%20%26%20co&bpctr=9999999999&has_verified=1"
    );
}

#[test]
fn builds_the_watch_address() {
    let u = watch_url(b"YbJOTdZBX1g");
    assert_eq!(
        String::from_utf8(u).unwrap(),
        "https://www.youtube.com/watch?v=YbJOTdZBX1g&bpctr=9999999999&has_verified=1"
    );
}
