use tts_pipeline::segment::{
    extend, is_terminator, silence, split_sentences, GAP_SAMPLES, SILENCE_SAMPLES,
};

fn split_with_std(text: &str) -> Vec<String> {
    text.split(|c: char| c == '.' || c == '!' || c == '?' || c == '。')
        .filter(|s| !s.trim().is_empty())
        .map(|s| s.trim().to_string())
        .collect()
}

#[test]
fn split_cuts_at_terminators() {
    assert_eq!(split_sentences("Hello world. How are you? Fine!"), vec![
        "Hello world",
        "How are you",
        "Fine"
    ]);
    assert_eq!(split_sentences("你好。再见。"), vec!["你好", "再见"]);
}

#[test]
fn split_drops_blank_pieces() {
    assert_eq!(split_sentences("..."), Vec::<String>::new());
    assert_eq!(split_sentences(""), Vec::<String>::new());
    assert_eq!(split_sentences("  \n "), Vec::<String>::new());
    assert_eq!(split_sentences("a. . !b"), vec!["a", "b"]);
}

#[test]
fn split_without_terminator_is_one_unit() {
    assert_eq!(split_sentences("  no terminator here "), vec!["no terminator here"]);
}

#[test]
fn split_agrees_with_std() {
    for text in [
        "One. Two! Three? Four。Five",
        "  leading. trailing  ",
        "a..b",
        "?!.",
        "3.14 is pi. Is it?",
        "tabs\t.\tand\nnewlines!\n",
        "no end",
        "",
    ] {
        assert_eq!(split_sentences(text), split_with_std(text), "{:?}", text);
    }
}

#[test]
fn terminators_are_four() {
    for c in ['.', '!', '?', '。'] {
        assert!(is_terminator(c));
    }
    for c in [',', ';', ':', ' ', 'a', '！', '？'] {
        assert!(!is_terminator(c));
    }
}

#[test]
fn silence_is_all_zero() {
    assert_eq!(silence(0.0f32, 3), vec![0.0f32, 0.0, 0.0]);
    assert_eq!(silence(0i16, 0), Vec::<i16>::new());
    assert_eq!(silence(0.0f32, SILENCE_SAMPLES).len(), 24000);
    assert_eq!(silence(0.0f32, GAP_SAMPLES).len(), 7200);
}

#[test]
fn extend_appends() {
    let mut samples = vec![1.0f32, 2.0];
    extend(&mut samples, &vec![3.0, 4.0]);
    extend(&mut samples, &Vec::new());
    assert_eq!(samples, vec![1.0, 2.0, 3.0, 4.0]);
}
