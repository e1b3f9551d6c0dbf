use tts_pipeline::vocab::{build_vocab, tokenize};

#[test]
fn test_vocab_size() {
    let vocab = build_vocab();
    assert!(vocab.len() > 100);
    assert!(vocab.contains_key(&'$')); // pad token
    assert!(vocab.contains_key(&' ')); // space
    assert!(vocab.contains_key(&'ə')); // IPA
}

#[test]
fn test_tokenize() {
    let phonemes = "həlˈoʊ";
    let tokens = tokenize(phonemes);
    assert!(tokens.len() > 0);
    assert!(tokens.iter().all(|&t| t >= 0));
}

#[test]
fn pad_symbol_alone_is_one_token() {
    assert_eq!(tokenize("$"), vec![0]);
    assert_eq!(tokenize("$").len(), 1);
}

#[test]
fn unknown_characters_yield_nothing() {
    assert_eq!(tokenize("0123456789"), Vec::<i64>::new());
    assert_eq!(tokenize("日本語"), Vec::<i64>::new());
    assert_eq!(tokenize(""), Vec::<i64>::new());
    assert_eq!(tokenize("@#%^&*()"), Vec::<i64>::new());
}

#[test]
fn tokens_are_positions_in_the_table() {
    assert_eq!(tokenize(";:,.!?"), vec![1, 2, 3, 4, 5, 6]);
    assert_eq!(tokenize(" "), vec![16]);
    assert_eq!(tokenize("AZaz"), vec![17, 42, 43, 68]);
    assert_eq!(tokenize("ɑ"), vec![69]);
    assert_eq!(tokenize("ᵻ"), vec![177]);
    assert_eq!(tokenize("a1b2"), vec![43, 44]);
}

#[test]
fn repeated_symbols_take_their_last_position() {
    assert_eq!(tokenize("\""), vec![15]);
    assert_eq!(tokenize("'"), vec![176]);
    assert_eq!(tokenize("\u{0329}"), vec![175]);
}

#[test]
fn tokens_stay_below_the_table_size() {
    let every: String = (0..=0x3000u32).filter_map(char::from_u32).collect();
    let tokens = tokenize(&every);
    assert_eq!(tokens.len(), 175);
    assert!(tokens.iter().all(|&t| 0 <= t && t < 178));
}

#[test]
fn vocab_has_every_distinct_symbol() {
    let vocab = build_vocab();
    assert_eq!(vocab.len(), 175);
    assert_eq!(vocab.get('$'), Some(0));
    assert_eq!(vocab.get('ə'), Some(83));
    assert_eq!(vocab.get('0'), None);
    assert!(!vocab.contains_key(&'0'));
}

#[test]
fn vocab_tokenize_is_the_free_function() {
    let vocab = build_vocab();
    for s in ["həlˈoʊ", "", "a b c", "x1y2"] {
        assert_eq!(vocab.tokenize(s), tokenize(s));
    }
}

#[test]
fn retain_symbols_keeps_table_characters() {
    let vocab = build_vocab();
    let chars: Vec<char> = "h3llo w0rld".chars().collect();
    let kept: String = vocab.retain_symbols(&chars).into_iter().collect();
    assert_eq!(kept, "hllo wrld");
}
