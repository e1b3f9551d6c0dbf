//! The phonemizer adapter: what is made of the output of the phonemizer tool, and what
//! stands in for it where the tool cannot be used. Running the tool is left to the caller.

use crate::text::{
    ascii_lower, chars_of, is_ascii_alphanumeric, is_whitespace, replace, spec_ascii_lower,
    spec_is_ascii_alphanumeric, spec_is_whitespace, spec_replace, spec_trim, string_of, trim,
};
use crate::vocab::{spec_retain_symbols, spec_token, Vocab};
use vstd::prelude::*;
use vstd::utf8::{decode_utf8, valid_utf8};

verus! {

/// `core::str::Utf8Error`, the error of `core::str::from_utf8`, carried without a look inside.
#[verifier::external_type_specification]
#[verifier::external_body]
pub struct ExUtf8Error(core::str::Utf8Error);

/// `core::str::from_utf8` returns the string whose UTF-8 encoding is `bytes`, and fails
/// exactly when `bytes` is not valid UTF-8.
pub assume_specification[ core::str::from_utf8 ](bytes: &[u8]) -> (decoded: Result<
    &str,
    core::str::Utf8Error,
>)
    ensures
        decoded is Ok <==> valid_utf8(bytes@),
        decoded is Ok ==> decoded->Ok_0@ == decode_utf8(bytes@),
;

/// What came back from one run of the phonemizer tool.
#[derive(Debug, PartialEq, Eq)]
pub struct ToolRun {
    /// Whether the tool exited with success.
    pub success: bool,
    /// What the tool wrote to its standard output.
    pub stdout: Vec<u8>,
}

/// A phoneme string, and whether it comes from the fallback rather than from the tool.
#[derive(Debug, PartialEq, Eq)]
pub struct Phonemes {
    /// The phoneme string.
    pub text: String,
    /// Whether the tool could not be used and the fallback stands in for it.
    pub degraded: bool,
}

/// `s` after the substitutions that fit the tool's notation to the model's, applied one after
/// another in this order.
pub open spec fn spec_substitute(s: Seq<char>) -> Seq<char> {
    let s = spec_replace(s, "kəkˈoːɹoʊ"@, "kˈoʊkəɹoʊ"@);
    let s = spec_replace(s, "kəkˈɔːɹəʊ"@, "kˈəʊkəɹəʊ"@);
    let s = spec_replace(s, "ʲ"@, "j"@);
    let s = spec_replace(s, "r"@, "ɹ"@);
    let s = spec_replace(s, "x"@, "k"@);
    spec_replace(s, "ɬ"@, "l"@)
}

/// The phoneme string made from the tool's output: trimmed, with the substitutions applied,
/// and without the characters that are not in the symbol table.
pub open spec fn spec_refine(raw: Seq<char>) -> Seq<char> {
    spec_retain_symbols(spec_substitute(spec_trim(raw)))
}

/// The phoneme string that stands in where the tool cannot be used: the letters and digits
/// of ASCII and the whitespace of the text, with the letters in lower case.
pub open spec fn spec_fallback(text: Seq<char>) -> Seq<char> {
    text.filter(|c: char| spec_is_ascii_alphanumeric(c) || spec_is_whitespace(c)).map_values(
        |c: char| spec_ascii_lower(c),
    )
}

/// Whether a run of the tool can be used: it exited with success and wrote valid UTF-8.
pub open spec fn spec_usable(run: Option<ToolRun>) -> bool {
    run matches Some(r) && r.success && valid_utf8(r.stdout@)
}

/// The phoneme string for `text`, given what came back from the tool: the refined output of
/// a usable run, the fallback otherwise.
pub open spec fn spec_phonemize(text: Seq<char>, run: Option<ToolRun>) -> Seq<char> {
    if spec_usable(run) {
        spec_refine(decode_utf8(run->0.stdout@))
    } else {
        spec_fallback(text)
    }
}

/// Every character of a refined phoneme string is in the symbol table.
pub proof fn lemma_refined_in_vocabulary(raw: Seq<char>)
    ensures
        forall|i: int|
            0 <= i < spec_refine(raw).len() ==> spec_token(#[trigger] spec_refine(raw)[i])
                is Some,
{
    let kept = |c: char| spec_token(c) is Some;
    let substituted = spec_substitute(spec_trim(raw));
    assert forall|i: int| 0 <= i < spec_refine(raw).len() implies spec_token(
        #[trigger] spec_refine(raw)[i],
    ) is Some by {
        substituted.lemma_filter_pred(kept, i);
    }
}

/// `s` with every occurrence of `from` replaced by `to`.
fn substitute_one(s: Vec<char>, from: &str, to: &str) -> (out: Vec<char>)
    ensures
        out@ == spec_replace(s@, from@, to@),
{
    let from = chars_of(from);
    let to = chars_of(to);
    replace(&s, &from, &to)
}

/// The phoneme string made from `raw`, the output of the tool.
pub fn refine_phonemes(vocab: &Vocab, raw: &str) -> (phonemes: String)
    ensures
        phonemes@ == spec_refine(raw@),
{
    let s = trim(&chars_of(raw));
    let s = substitute_one(s, "kəkˈoːɹoʊ", "kˈoʊkəɹoʊ");
    let s = substitute_one(s, "kəkˈɔːɹəʊ", "kˈəʊkəɹəʊ");
    let s = substitute_one(s, "ʲ", "j");
    let s = substitute_one(s, "r", "ɹ");
    let s = substitute_one(s, "x", "k");
    let s = substitute_one(s, "ɬ", "l");
    string_of(&vocab.retain_symbols(&s))
}

/// The phoneme string that stands in for the tool's: see `spec_fallback`.
pub fn fallback_phonemes(text: &str) -> (phonemes: String)
    ensures
        phonemes@ == spec_fallback(text@),
{
    let chars = chars_of(text);
    let mut kept: Vec<char> = Vec::new();
    let mut i: usize = 0;
    let ghost wanted = |c: char| spec_is_ascii_alphanumeric(c) || spec_is_whitespace(c);
    let ghost lower = |c: char| spec_ascii_lower(c);
    assert(chars@.take(0).filter(wanted).map_values(lower) == Seq::<char>::empty()) by {
        reveal(Seq::filter);
    }
    while i < chars.len()
        invariant
            i <= chars.len(),
            wanted == |c: char| spec_is_ascii_alphanumeric(c) || spec_is_whitespace(c),
            lower == |c: char| spec_ascii_lower(c),
            kept@ == chars@.take(i as int).filter(wanted).map_values(lower),
        decreases chars.len() - i,
    {
        let c = chars[i];
        proof {
            let before = chars@.take(i as int);
            assert(chars@.take(i + 1) == before.push(c));
            before.lemma_filter_push(c, wanted);
            if wanted(c) {
                assert(before.filter(wanted).push(c).map_values(lower) == before.filter(
                    wanted,
                ).map_values(lower).push(lower(c)));
            }
        }
        if is_ascii_alphanumeric(c) || is_whitespace(c) {
            kept.push(ascii_lower(c));
        }
        i += 1;
    }
    assert(chars@.take(chars.len() as int) == chars@);
    string_of(&kept)
}

/// The phoneme string for `text`, given what came back from the tool. A run that failed, or
/// whose output is not UTF-8, or no run at all, gives the fallback, and the result says so.
pub fn simple_phonemize(vocab: &Vocab, text: &str, run: Option<&ToolRun>) -> (phonemes: Phonemes)
    ensures
        phonemes.text@ == spec_phonemize(text@, run_view(run)),
        phonemes.degraded == !spec_usable(run_view(run)),
{
    match run {
        Some(run) => {
            if run.success {
                match core::str::from_utf8(run.stdout.as_slice()) {
                    Ok(raw) => {
                        return Phonemes { text: refine_phonemes(vocab, raw), degraded: false };
                    },
                    Err(_) => {},
                }
            }
        },
        None => {},
    }
    Phonemes { text: fallback_phonemes(text), degraded: true }
}

/// The run behind an optional reference.
pub open spec fn run_view(run: Option<&ToolRun>) -> Option<ToolRun> {
    match run {
        Some(r) => Some(*r),
        None => None,
    }
}

} // verus!
