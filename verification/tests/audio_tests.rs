use jukebox::audio::{audio_urls, get_urls, is_audio_itag, pick_best, probe_outcome};
use jukebox::cipher::CipherFunction;
use jukebox::json::parse_json;

fn candidate(itag: u32, bitrate: u32, url: &str) -> String {
    format!(
        r#"{{"itag":{},"bitrate":{},"audioSampleRate":"44100","audioChannels":2,"url":"{}"}}"#,
        itag, bitrate, url
    )
}

#[test]
fn the_allow_list_is_exact() {
    for n in [139u64, 140, 141, 256, 258, 325, 328, 171, 172, 249, 250, 252] {
        assert!(is_audio_itag(n));
    }
    for n in [0u64, 18, 22, 137, 138, 142, 251, 298, 299, 1000] {
        assert!(!is_audio_itag(n));
    }
}

#[test]
fn a_disallowed_itag_never_survives_even_at_higher_bitrate() {
    let arr = format!(
        "[{},{},{}]",
        candidate(299, 9999999, "https://cdn.example/video"),
        candidate(140, 130000, "https://cdn.example/a140"),
        candidate(251, 8888888, "https://cdn.example/a251"),
    );
    let parsed = parse_json(arr.as_bytes()).unwrap();
    let items = parsed.arr_items().unwrap();
    let prog: Vec<CipherFunction> = Vec::new();
    let list = get_urls(items, &prog);
    assert_eq!(list.len(), 1);
    assert_eq!(list[0].itag, 140);
    let best = pick_best(list).unwrap();
    assert_eq!(best.itag, 140);
    assert_eq!(best.url, "https://cdn.example/a140");
}

#[test]
fn a_candidate_missing_a_numeric_field_is_dropped_not_fatal() {
    let arr = format!(
        r#"[{{"itag":140,"bitrate":1,"url":"https://cdn.example/x"}},{}]"#,
        candidate(139, 2, "https://cdn.example/ok")
    );
    let parsed = parse_json(arr.as_bytes()).unwrap();
    let prog: Vec<CipherFunction> = Vec::new();
    let list = get_urls(parsed.arr_items().unwrap(), &prog);
    assert_eq!(list.len(), 1);
    assert_eq!(list[0].itag, 139);
}

#[test]
fn selection_takes_the_greatest_bitrate_first_seen_on_ties() {
    let arr = format!(
        "[{},{},{}]",
        candidate(139, 50000, "https://cdn.example/low"),
        candidate(140, 130000, "https://cdn.example/first-high"),
        candidate(141, 130000, "https://cdn.example/second-high"),
    );
    let parsed = parse_json(arr.as_bytes()).unwrap();
    let prog: Vec<CipherFunction> = Vec::new();
    let list = get_urls(parsed.arr_items().unwrap(), &prog);
    let best = pick_best(list).unwrap();
    assert_eq!(best.url, "https://cdn.example/first-high");
}

#[test]
fn an_empty_candidate_set_is_a_typed_error() {
    assert!(pick_best(Vec::new()).is_err());
}

#[test]
fn reads_the_optional_fields() {
    let arr = r#"[{"itag":140,"bitrate":130000,"audioSampleRate":"44100","audioChannels":2,"approxDurationMs":"218871","loudnessDb":-2.5,"url":"https://cdn.example/a"}]"#;
    let parsed = parse_json(arr.as_bytes()).unwrap();
    let prog: Vec<CipherFunction> = Vec::new();
    let list = get_urls(parsed.arr_items().unwrap(), &prog);
    assert_eq!(list.len(), 1);
    assert_eq!(list[0].ms_duration, Some(218871));
    assert_eq!(list[0].loudness_db.as_deref(), Some("-2.5"));
    assert_eq!(list[0].sample_rate, 44100);
    assert_eq!(list[0].bitrate, 130000);
    assert_eq!(list[0].channels, 2);
}

#[test]
fn a_ciphered_candidate_is_decoded() {
    // The encoded signature decodes to `fedcba`; the program swaps,
    // drops two, and reverses, leaving `abcd`.
    let sc = "s=fedcba&sp=sig&url=https%3A%2F%2Fcdn.example%2Faudio%3Fitag%3D140";
    let arr = format!(
        r#"[{{"itag":140,"bitrate":130000,"audioSampleRate":"44100","audioChannels":2,"signatureCipher":"{}"}}]"#,
        sc
    );
    let parsed = parse_json(arr.as_bytes()).unwrap();
    let prog = vec![
        CipherFunction::Swap(1),
        CipherFunction::Slice(2),
        CipherFunction::Reverse,
    ];
    let list = get_urls(parsed.arr_items().unwrap(), &prog);
    assert_eq!(list.len(), 1);
    assert_eq!(list[0].url, "https://cdn.example/audio?itag=140&sig=abcd");
}

#[test]
fn missing_streaming_metadata_is_a_typed_error() {
    let root = parse_json(br#"{"playabilityStatus":{"status":"LOGIN_REQUIRED"}}"#).unwrap();
    let prog: Vec<CipherFunction> = Vec::new();
    assert!(audio_urls(&root, &prog).is_err());
}

#[test]
fn adaptive_candidates_come_before_combined_ones() {
    let page = format!(
        r#"{{"streamingData":{{"adaptiveFormats":[{}],"formats":[{}]}}}}"#,
        candidate(249, 1, "https://cdn.example/adaptive"),
        candidate(140, 2, "https://cdn.example/combined"),
    );
    let root = parse_json(page.as_bytes()).unwrap();
    let prog: Vec<CipherFunction> = Vec::new();
    let list = audio_urls(&root, &prog).unwrap();
    assert_eq!(list.len(), 2);
    assert_eq!(list[0].url, "https://cdn.example/adaptive");
    assert_eq!(list[1].url, "https://cdn.example/combined");
}

#[test]
fn the_probe_gates_the_chosen_stream() {
    let arr = format!("[{}]", candidate(140, 1, "https://cdn.example/a"));
    let parsed = parse_json(arr.as_bytes()).unwrap();
    let prog: Vec<CipherFunction> = Vec::new();
    let list = get_urls(parsed.arr_items().unwrap(), &prog);
    let ad = pick_best(list).unwrap();
    assert!(probe_outcome(Some(200), ad.clone()).is_ok());
    assert!(probe_outcome(Some(403), ad.clone()).is_err());
    assert!(probe_outcome(None, ad).is_err());
}
