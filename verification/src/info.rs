//! Data carried out of an extraction: video summaries from a search page
//! and audio stream descriptions from a watch page, plus the extractor's
//! error type.

use vstd::prelude::*;

verus! {

/// Why an extraction failed: a parsing problem (missing key, malformed
/// JSON, out-of-range index), a transport problem, or a failure to recover
/// the signature cipher program from the client script.
#[derive(Debug, Clone)]
pub enum ErrorExtractor {
    ErrorParsing(String),
    ErrorReqwest,
    CipherExtractionFailed(String),
}

impl ErrorExtractor {
    /// A human-readable description of the error.
    pub fn message(&self) -> (r: String)
        ensures
            match self {
                ErrorExtractor::ErrorParsing(e) => r@ == "Error parsing : "@ + e@,
                ErrorExtractor::ErrorReqwest => r@ == "Error with the reqwest"@,
                ErrorExtractor::CipherExtractionFailed(e) => r@ == "Error extracting the cipher : "@
                    + e@,
            },
    {
        match self {
            ErrorExtractor::ErrorParsing(e) => {
                let mut m = String::from_str("Error parsing : ");
                m.append(e.as_str());
                m
            },
            ErrorExtractor::ErrorReqwest => String::from_str("Error with the reqwest"),
            ErrorExtractor::CipherExtractionFailed(e) => {
                let mut m = String::from_str("Error extracting the cipher : ");
                m.append(e.as_str());
                m
            },
        }
    }
}

/// The author of a video, as shown on the search page.
#[derive(Debug, Clone)]
pub struct YtAuthorInfo {
    pub name: String,
    pub thumbnail: String,
    pub tag: String,
}

/// One video summary from a search page. Identity is the video id alone:
/// two summaries with equal ids name the same video.
#[derive(Debug, Clone)]
pub struct YtVideoPageInfo {
    pub id: String,
    pub short_recap: String,
    pub title: String,
    pub thumbnail: String,
    pub author: YtAuthorInfo,
    pub meta_description: String,
    pub duration: String,
    pub n_views: String,
    pub date: String,
}

impl PartialEq for YtVideoPageInfo {
    fn eq(&self, other: &Self) -> (r: bool) {
        self.id == other.id
    }
}

impl vstd::std_specs::cmp::PartialEqSpecImpl for YtVideoPageInfo {
    open spec fn obeys_eq_spec() -> bool {
        true
    }

    open spec fn eq_spec(&self, other: &Self) -> bool {
        self.id@ == other.id@
    }
}

impl Eq for YtVideoPageInfo {

}

/// One audio-only stream candidate, fully resolved. The loudness, when the
/// platform reports one, is kept as the literal decimal text of the
/// decibel value.
#[derive(Debug, Clone)]
pub struct YtAudioData {
    pub url: String,
    pub itag: u32,
    pub sample_rate: u32,
    pub bitrate: u32,
    pub channels: u16,
    pub ms_duration: Option<u64>,
    pub loudness_db: Option<String>,
}

} // verus!
