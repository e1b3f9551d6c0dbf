use tts_pipeline::cache::{AudioCache, EntryState};
use tts_pipeline::engine::{
    pad_tokens, plan, Plan, Step, SynthError, TTSEngine, DEFAULT_VOICE, MAX_TOKENS, SAMPLE_RATE,
};
use tts_pipeline::phonemes::ToolRun;
use tts_pipeline::vocab::tokenize;
use tts_pipeline::voices::{VoiceStore, VoiceStyle};
use tts_pipeline::wav::encode_wav;

fn engine() -> TTSEngine {
    let mut voices = VoiceStore::new();
    let alloy: Vec<u8> = (0..512).flat_map(|i| (i as f32).to_le_bytes()).collect();
    voices.insert(VoiceStyle::new("af_alloy", &alloy));
    voices.insert(VoiceStyle::new("bf_emma", &vec![7u8; 1024]));
    voices.insert(VoiceStyle::new("hollow", &[]));
    TTSEngine::new(voices)
}

/// Stands for the model: as many samples as tokens, each of the value `level`.
fn model(tokens: &[i64], level: f32) -> Vec<f32> {
    vec![level; tokens.len()]
}

/// Runs a request to its end. The phonemizer answers with the text itself; the model fails
/// on a text that holds `fail_on`.
fn run(
    engine: &TTSEngine,
    text: &str,
    voice: Option<&str>,
    fail_on: &str,
) -> (Result<Vec<f32>, SynthError>, Vec<String>, usize) {
    let mut asked = Vec::new();
    let mut inferred = 0;
    let mut current = String::new();
    let mut step = engine.synthesize(text, voice, 0.0f32);
    loop {
        step = match step {
            Step::Phonemize { text, then } => {
                asked.push(text.clone());
                current = text.clone();
                engine.on_phonemes(then, &text)
            }
            Step::Infer { tokens, style, then } => {
                inferred += 1;
                assert_eq!(style.len(), 256);
                assert_eq!(tokens.first(), Some(&0));
                assert_eq!(tokens.last(), Some(&0));
                assert!(tokens.len() <= MAX_TOKENS + 2);
                if !fail_on.is_empty() && current.contains(fail_on) {
                    engine.on_audio(then, None)
                } else {
                    engine.on_audio(then, Some(model(&tokens, 0.5)))
                }
            }
            Step::Done { audio } => return (Ok(audio), asked, inferred),
            Step::Failed { error } => return (Err(error), asked, inferred),
        };
    }
}

#[test]
fn plan_follows_the_token_count() {
    assert_eq!(plan(0), Plan::Silent);
    assert_eq!(plan(1), Plan::Direct);
    assert_eq!(plan(400), Plan::Direct);
    assert_eq!(plan(401), Plan::Segmented);
    assert_eq!(plan(usize::MAX), Plan::Segmented);
}

#[test]
fn pad_tokens_adds_a_pad_at_each_end() {
    assert_eq!(pad_tokens(&vec![5, 6, 7]), vec![0, 5, 6, 7, 0]);
    assert_eq!(pad_tokens(&Vec::new()), vec![0, 0]);
}

#[test]
fn engine_settings() {
    let engine = engine();
    assert_eq!(engine.sample_rate(), 24000);
    assert_eq!(SAMPLE_RATE, 24000);
    assert_eq!(DEFAULT_VOICE, "af_alloy");
    assert_eq!(engine.voices().len(), 3);
    assert_eq!(engine.vocab().len(), 175);
}

#[test]
fn style_is_the_first_vector_of_the_voice() {
    let engine = engine();
    let style = engine.select_style(Some("af_alloy")).unwrap();
    assert_eq!(style.len(), 256);
    assert_eq!(f32::from_bits(style[0]), 0.0);
    assert_eq!(f32::from_bits(style[255]), 255.0);
    assert_eq!(engine.select_style(None).unwrap(), style);
    assert_eq!(engine.select_style(Some("bf_emma")).unwrap(), vec![0x0707_0707u32; 256]);
    assert_eq!(engine.select_style(Some("hollow")).unwrap(), vec![0u32; 256]);
}

#[test]
fn unknown_voice_is_refused() {
    let engine = engine();
    assert_eq!(
        engine.select_style(Some("nobody")),
        Err(SynthError::UnknownVoice { voice: "nobody".to_string() })
    );
    let (result, asked, inferred) = run(&engine, "hello", Some("nobody"), "");
    assert_eq!(result, Err(SynthError::UnknownVoice { voice: "nobody".to_string() }));
    assert_eq!(asked, vec!["hello"]);
    assert_eq!(inferred, 0);
}

#[test]
fn short_text_goes_to_the_model_once() {
    let engine = engine();
    let step = engine.synthesize("hello", None, 0.0f32);
    let then = match step {
        Step::Phonemize { text, then } => {
            assert_eq!(text, "hello");
            then
        }
        _ => panic!("the first step is to phonemize"),
    };
    let then = match engine.on_phonemes(then, "həlˈoʊ") {
        Step::Infer { tokens, style, then } => {
            assert_eq!(tokens, vec![0, 50, 83, 54, 156, 57, 135, 0]);
            assert_eq!(style, engine.select_style(None).unwrap());
            then
        }
        _ => panic!("a short text goes to the model"),
    };
    match engine.on_audio(then, Some(vec![0.25f32, -0.25, 0.5])) {
        Step::Done { audio } => assert_eq!(audio, vec![0.25, -0.25, 0.5]),
        _ => panic!("the waveform ends the request"),
    }
}

#[test]
fn text_under_the_threshold_is_not_split() {
    let engine = engine();
    let text = "a. b. ".repeat(60);
    assert!(tokenize(&text).len() <= MAX_TOKENS);
    let (result, asked, inferred) = run(&engine, &text, None, "");
    assert_eq!(asked.len(), 1);
    assert_eq!(inferred, 1);
    assert_eq!(result.unwrap().len(), tokenize(&text).len() + 2);
}

#[test]
fn text_without_tokens_is_a_second_of_silence() {
    let engine = engine();
    for text in ["", "12345", "日本語"] {
        let (result, asked, inferred) = run(&engine, text, None, "");
        assert_eq!(result, Ok(vec![0.0f32; 24000]));
        assert_eq!(asked.len(), 1);
        assert_eq!(inferred, 0);
    }
}

#[test]
fn failed_inference_fails_a_short_request() {
    let engine = engine();
    let (result, _, inferred) = run(&engine, "hello", None, "hello");
    assert_eq!(result, Err(SynthError::Inference));
    assert_eq!(inferred, 1);
}

#[test]
fn long_text_is_split_and_joined_with_gaps() {
    let engine = engine();
    let first = "a".repeat(200);
    let second = "b".repeat(150);
    let third = "c".repeat(100);
    let text = format!("{}. {}! {}?", first, second, third);
    assert!(tokenize(&text).len() > MAX_TOKENS);
    let (result, asked, inferred) = run(&engine, &text, None, "");
    assert_eq!(asked, vec![text.clone(), first, second, third]);
    assert_eq!(inferred, 3);
    let audio = result.unwrap();
    assert_eq!(audio.len(), (200 + 2) + (150 + 2) + (100 + 2) + 2 * 7200);
    assert!(audio[..202].iter().all(|s| *s == 0.5));
    assert!(audio[202..202 + 7200].iter().all(|s| *s == 0.0));
    assert!(audio[202 + 7200..202 + 7200 + 152].iter().all(|s| *s == 0.5));
    assert!(audio[audio.len() - 102..].iter().all(|s| *s == 0.5));
}

#[test]
fn failed_segment_is_passed_over() {
    let engine = engine();
    let text = format!("{}. {}. {}.", "a".repeat(200), "b".repeat(150), "c".repeat(100));
    let (result, asked, inferred) = run(&engine, &text, None, "b");
    assert_eq!(asked.len(), 4);
    assert_eq!(inferred, 3);
    assert_eq!(result.unwrap().len(), 202 + 7200 + 102);
    let (result, _, _) = run(&engine, &text, None, "c");
    assert_eq!(result.unwrap().len(), 202 + 7200 + 152);
}

#[test]
fn segment_without_tokens_is_a_second_of_silence() {
    let engine = engine();
    let text = format!("{}. 12345. {}.", "a".repeat(250), "c".repeat(200));
    let (result, asked, inferred) = run(&engine, &text, None, "");
    assert_eq!(asked.len(), 4);
    assert_eq!(inferred, 2);
    assert_eq!(result.unwrap().len(), 252 + 7200 + 24000 + 7200 + 202);
}

#[test]
fn long_text_that_cannot_be_split_fails() {
    let engine = engine();
    let text = "a".repeat(401);
    let (result, asked, inferred) = run(&engine, &text, None, "");
    assert_eq!(asked, vec![text.clone(), text.clone()]);
    assert_eq!(inferred, 0);
    assert_eq!(result, Err(SynthError::Inference));
}

#[test]
fn long_text_of_terminators_is_silence() {
    let engine = engine();
    let text = "!".repeat(500);
    let (result, asked, inferred) = run(&engine, &text, None, "");
    assert_eq!(asked.len(), 1);
    assert_eq!(inferred, 0);
    assert_eq!(result, Ok(vec![0.0f32; 24000]));
}

#[test]
fn unknown_voice_fails_a_long_text() {
    let engine = engine();
    let text = format!("{}. {}.", "a".repeat(300), "b".repeat(300));
    assert!(tokenize(&text).len() > MAX_TOKENS);
    let (result, asked, inferred) = run(&engine, &text, Some("no_such_voice"), "");
    assert_eq!(result, Err(SynthError::UnknownVoice { voice: "no_such_voice".to_string() }));
    assert_eq!(asked, vec![text.clone()]);
    assert_eq!(inferred, 0);
}

#[test]
fn unknown_voice_without_tokens_is_silence() {
    let engine = engine();
    let (result, _, inferred) = run(&engine, "12345", Some("no_such_voice"), "");
    assert_eq!(result, Ok(vec![0.0f32; 24000]));
    assert_eq!(inferred, 0);
}

#[test]
fn all_segments_failing_fails_the_request() {
    let engine = engine();
    let text = format!("{}. {}.", "a".repeat(300), "ab".repeat(150));
    let (result, asked, inferred) = run(&engine, &text, None, "a");
    assert_eq!(asked.len(), 3);
    assert_eq!(inferred, 2);
    assert_eq!(result, Err(SynthError::Inference));
}

#[test]
fn single_failing_sentence_fails_the_request() {
    let engine = engine();
    let text = format!("  {}  !", "a".repeat(399));
    assert!(tokenize(&text).len() > MAX_TOKENS);
    let (result, asked, inferred) = run(&engine, &text, None, "a");
    assert_eq!(asked, vec![text.clone(), "a".repeat(399)]);
    assert_eq!(inferred, 1);
    assert_eq!(result, Err(SynthError::Inference));
}

#[test]
fn one_segment_is_enough() {
    let engine = engine();
    let text = format!("{}. {}. 123.", "a".repeat(300), "b".repeat(300));
    let (result, _, inferred) = run(&engine, &text, None, "a");
    assert_eq!(inferred, 2);
    assert_eq!(result.unwrap().len(), 302 + 7200 + 24000);
    let (result, _, _) = run(&engine, &text, None, "b");
    assert_eq!(result.unwrap().len(), 302 + 7200 + 24000);
}

#[test]
fn segments_without_samples_are_a_second_of_silence() {
    let engine = engine();
    let text = format!("{}.", "a".repeat(401 - 1));
    assert!(tokenize(&text).len() > MAX_TOKENS);
    let then = match engine.synthesize(&text, None, 0.0f32) {
        Step::Phonemize { then, .. } => then,
        _ => panic!("the first step is to phonemize"),
    };
    let then = match engine.on_phonemes(then, &text) {
        Step::Phonemize { text, then } => {
            assert_eq!(text, "a".repeat(400));
            then
        }
        _ => panic!("a long text is cut"),
    };
    let then = match engine.on_phonemes(then, "aaa") {
        Step::Infer { then, .. } => then,
        _ => panic!("a sentence within the limit goes to the model"),
    };
    match engine.on_audio(then, Some(Vec::new())) {
        Step::Done { audio } => assert_eq!(audio, vec![0.0f32; 24000]),
        _ => panic!("an empty segment is still a segment"),
    }
}

#[test]
fn tool_run_decides_between_tool_and_fallback() {
    let engine = engine();
    let then = match engine.synthesize("Hello, World!", None, 0.0f32) {
        Step::Phonemize { then, .. } => then,
        _ => panic!("the first step is to phonemize"),
    };
    let tool = ToolRun { success: true, stdout: "həlˈoʊ\n".as_bytes().to_vec() };
    match engine.on_tool_run(then, Some(&tool)) {
        Step::Infer { tokens, .. } => assert_eq!(tokens, vec![0, 50, 83, 54, 156, 57, 135, 0]),
        _ => panic!("the tool's phonemes go to the model"),
    }
    let then = match engine.synthesize("Hello, World!", None, 0.0f32) {
        Step::Phonemize { then, .. } => then,
        _ => panic!("the first step is to phonemize"),
    };
    match engine.on_tool_run(then, None) {
        Step::Infer { tokens, .. } => {
            let mut expected = vec![0];
            expected.extend(tokenize("hello world"));
            expected.push(0);
            assert_eq!(tokens, expected);
        }
        _ => panic!("the fallback's phonemes go to the model"),
    }
}

#[test]
fn request_is_a_miss_first_and_a_hit_after() {
    let engine = engine();
    let cache = AudioCache::new("cache/audio", 3600);
    let text = "Hello, world!";

    let first = cache.lookup(text, None, EntryState::Missing);
    assert_eq!(first.file_id, None);

    let (result, _, _) = run(&engine, text, None, "");
    let audio = result.unwrap();
    assert!(!audio.is_empty());

    let pcm: Vec<i16> = audio.iter().map(|s| (s.max(-1.0).min(1.0) * 32767.0) as i16).collect();
    let wav = encode_wav(&pcm, engine.sample_rate()).unwrap();
    assert_eq!(&wav[0..4], b"RIFF");
    assert_eq!(&wav[8..12], b"WAVE");
    assert_eq!(wav.len(), 44 + 2 * audio.len());

    let saved = cache.save(text, None);
    assert_eq!(saved.file_id, "315f5bdb76d078c4");
    assert_eq!(saved.file_id, cache.save(text, None).file_id);

    let second = cache.lookup(text, None, EntryState::Present { age_secs: 0 });
    assert_eq!(second.file_id, Some(saved.file_id));
    assert!(!second.expired);
}
