use tts_pipeline::service::{
    audio_url, default_format, serve_audio, synthesize_response, SynthesizeResponse,
    AUDIO_URL_PREFIX, CACHE_DIR, CACHE_TTL_SECONDS,
};

#[test]
fn default_format_is_wav() {
    assert_eq!(default_format(), "wav");
}

#[test]
fn audio_url_names_the_entry() {
    assert_eq!(audio_url("315f5bdb76d078c4"), "http://localhost:9527/audio/315f5bdb76d078c4.wav");
    assert_eq!(audio_url(""), "http://localhost:9527/audio/.wav");
}

#[test]
fn response_carries_id_url_and_origin() {
    assert_eq!(
        synthesize_response("315f5bdb76d078c4".to_string(), true),
        SynthesizeResponse {
            file_id: "315f5bdb76d078c4".to_string(),
            url: "http://localhost:9527/audio/315f5bdb76d078c4.wav".to_string(),
            cached: true,
        }
    );
    assert!(!synthesize_response("00".to_string(), false).cached);
}

#[test]
fn only_wav_names_are_served() {
    assert_eq!(serve_audio("abc.wav"), Some("cache/audio/abc.wav".to_string()));
    assert_eq!(serve_audio(".wav"), Some("cache/audio/.wav".to_string()));
    assert_eq!(serve_audio("abc.mp3"), None);
    assert_eq!(serve_audio("abc.wav.txt"), None);
    assert_eq!(serve_audio(""), None);
}

#[test]
fn settings_are_fixed() {
    assert_eq!(CACHE_DIR, "cache/audio");
    assert_eq!(CACHE_TTL_SECONDS, 3600);
    assert_eq!(AUDIO_URL_PREFIX, "http://localhost:9527/audio/");
}
