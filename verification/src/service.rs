//! The fixed settings of the service and the rules of its answers.

use crate::cache::{ends_with_wav, spec_ends_with_wav, spec_entry_name};
use vstd::prelude::*;
use vstd::string::StringExecFns;

verus! {

/// The directory of the audio cache.
pub const CACHE_DIR: &'static str = "cache/audio";

/// The time to live of a cache entry, in seconds.
pub const CACHE_TTL_SECONDS: u64 = 3600;

/// What stands before an entry's file name in its address.
pub const AUDIO_URL_PREFIX: &'static str = "http://localhost:9527/audio/";

/// The format of a request that names none.
pub fn default_format() -> (format: String)
    ensures
        format@ == "wav"@,
{
    String::from_str("wav")
}

/// The answer to a synthesis request.
#[derive(Debug, PartialEq, Eq)]
pub struct SynthesizeResponse {
    /// The identifier of the cache entry that holds the audio.
    pub file_id: String,
    /// The address at which the audio is served.
    pub url: String,
    /// Whether the audio was in the cache already.
    pub cached: bool,
}

/// The address at which the entry `file_id` is served.
pub open spec fn spec_audio_url(file_id: Seq<char>) -> Seq<char> {
    AUDIO_URL_PREFIX@ + spec_entry_name(file_id)
}

/// The address at which the entry `file_id` is served.
pub fn audio_url(file_id: &str) -> (url: String)
    ensures
        url@ == spec_audio_url(file_id@),
{
    let mut url = String::from_str(AUDIO_URL_PREFIX);
    url.append(file_id);
    url.append(".wav");
    proof {
        reveal_strlit(".wav");
        assert(".wav"@ =~= seq!['.', 'w', 'a', 'v']);
        assert(url@ =~= spec_audio_url(file_id@));
    }
    url
}

/// The answer to a request whose audio is the cache entry `file_id`.
pub fn synthesize_response(file_id: String, cached: bool) -> (response: SynthesizeResponse)
    ensures
        response.file_id == file_id,
        response.url@ == spec_audio_url(file_id@),
        response.cached == cached,
{
    let url = audio_url(file_id.as_str());
    SynthesizeResponse { file_id, url, cached }
}

/// The path of the file that is served under `filename`: the file of that name in the cache
/// directory. A name that does not end in `.wav` is refused.
pub open spec fn spec_serve_audio(filename: Seq<char>) -> Option<Seq<char>> {
    if spec_ends_with_wav(filename) {
        Some(CACHE_DIR@ + seq!['/'] + filename)
    } else {
        None
    }
}

/// The path of the file that is served under `filename`, or none where the name is refused.
pub fn serve_audio(filename: &str) -> (path: Option<String>)
    ensures
        match path {
            Some(p) => spec_serve_audio(filename@) == Some(p@),
            None => spec_serve_audio(filename@) is None,
        },
{
    if !ends_with_wav(filename) {
        return None;
    }
    let mut path = String::from_str(CACHE_DIR);
    path.append("/");
    path.append(filename);
    proof {
        reveal_strlit("/");
        assert("/"@ =~= seq!['/']);
        assert(path@ =~= CACHE_DIR@ + seq!['/'] + filename@);
    }
    Some(path)
}

} // verus!
