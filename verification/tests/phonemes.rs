use tts_pipeline::phonemes::{
    fallback_phonemes, refine_phonemes, simple_phonemize, Phonemes, ToolRun,
};
use tts_pipeline::vocab::build_vocab;

fn fallback_with_std(text: &str) -> String {
    text.chars()
        .filter(|c| c.is_ascii_alphanumeric() || c.is_whitespace())
        .collect::<String>()
        .to_lowercase()
}

fn run(success: bool, stdout: &[u8]) -> ToolRun {
    ToolRun { success, stdout: stdout.to_vec() }
}

#[test]
fn refine_trims_and_substitutes() {
    let vocab = build_vocab();
    assert_eq!(refine_phonemes(&vocab, " həlˈoʊ wˈɜːld\n"), "həlˈoʊ wˈɜːld");
    assert_eq!(refine_phonemes(&vocab, "kəkˈoːɹoʊ"), "kˈoʊkəɹoʊ");
    assert_eq!(refine_phonemes(&vocab, "kəkˈɔːɹəʊ"), "kˈəʊkəɹəʊ");
    assert_eq!(refine_phonemes(&vocab, "ʲ r x ɬ"), "j ɹ k l");
    assert_eq!(refine_phonemes(&vocab, "rxr"), "ɹkɹ");
}

#[test]
fn refine_drops_characters_outside_the_table() {
    let vocab = build_vocab();
    assert_eq!(refine_phonemes(&vocab, "h3l_l0"), "hll");
    assert_eq!(refine_phonemes(&vocab, "a\nb"), "ab");
    assert_eq!(refine_phonemes(&vocab, "123"), "");
    assert_eq!(refine_phonemes(&vocab, ""), "");
}

#[test]
fn fallback_keeps_letters_digits_and_whitespace() {
    assert_eq!(fallback_phonemes("Hello, World! 123"), "hello world 123");
    assert_eq!(fallback_phonemes("ÀBC déf"), "bc df");
    assert_eq!(fallback_phonemes("!!!"), "");
    assert_eq!(fallback_phonemes(""), "");
}

#[test]
fn fallback_agrees_with_std() {
    for text in [
        "Hello, World!",
        "MiXeD CaSe\tTabs\nLines",
        "Σίσυφος ΣΑΣ",
        "İstanbul I",
        "a\u{a0}b\u{3000}c",
        "ǅ ß ẞ K",
        "日本語 abc",
    ] {
        assert_eq!(fallback_phonemes(text), fallback_with_std(text), "{:?}", text);
    }
}

#[test]
fn phonemize_uses_a_successful_run() {
    let vocab = build_vocab();
    let tool = run(true, " həlˈoʊ\n".as_bytes());
    assert_eq!(
        simple_phonemize(&vocab, "Hello", Some(&tool)),
        Phonemes { text: "həlˈoʊ".to_string(), degraded: false }
    );
}

#[test]
fn phonemize_falls_back_without_a_usable_run() {
    let vocab = build_vocab();
    let degraded = Phonemes { text: "hello world".to_string(), degraded: true };
    assert_eq!(simple_phonemize(&vocab, "Hello, World!", None), degraded);
    let failed = run(false, "həlˈoʊ".as_bytes());
    assert_eq!(simple_phonemize(&vocab, "Hello, World!", Some(&failed)), degraded);
    let garbled = run(true, &[0x68, 0xff, 0xfe]);
    assert_eq!(simple_phonemize(&vocab, "Hello, World!", Some(&garbled)), degraded);
    let cut = run(true, &"ə".as_bytes()[..1]);
    assert_eq!(simple_phonemize(&vocab, "Hello, World!", Some(&cut)), degraded);
}

#[test]
fn phonemize_of_empty_output_is_empty() {
    let vocab = build_vocab();
    let tool = run(true, b"");
    assert_eq!(
        simple_phonemize(&vocab, "Hello", Some(&tool)),
        Phonemes { text: String::new(), degraded: false }
    );
}
