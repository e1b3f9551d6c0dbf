//! The synthesis orchestrator: what is done for a request between the runs of the phonemizer
//! and of the model. The caller runs both and hands back what came out; every decision is
//! taken here, as a step from the state of the request and an answer to the next state and
//! what to run next.

use crate::cache::voice_view;
use crate::phonemes::{run_view, simple_phonemize, spec_phonemize, ToolRun};
use crate::segment::{
    extend, lemma_join_len, silence, spec_join, spec_sentences, spec_silence, spec_total_len,
    split_sentences, GAP_SAMPLES, SILENCE_SAMPLES,
};
use crate::vocab::{
    build_vocab, lemma_tokens_in_range, spec_tokenize, spec_vocab, Vocab, PAD_TOKEN,
    SYMBOL_COUNT,
};
use crate::voices::{spec_style, VoiceStore, STYLE_DIM};
use vstd::prelude::*;

verus! {

/// The greatest number of tokens that are handed to the model at once.
pub const MAX_TOKENS: usize = 400;

/// The voice of a request that names none.
pub const DEFAULT_VOICE: &'static str = "af_alloy";

/// The sampling rate of the model's waveforms, in Hz.
pub const SAMPLE_RATE: u32 = 24000;

/// Why a request yields no waveform.
#[derive(Debug, PartialEq, Eq)]
pub enum SynthError {
    /// The voice `voice` is not in the store.
    UnknownVoice { voice: String },
    /// No waveform could be synthesized: the model failed on the text, or the text was cut
    /// into sentences and not one of them yielded a segment.
    Inference,
}

/// The view of a `SynthError`.
pub enum SynthErrorView {
    UnknownVoice { voice: Seq<char> },
    Inference,
}

impl View for SynthError {
    type V = SynthErrorView;

    open spec fn view(&self) -> SynthErrorView {
        match self {
            SynthError::UnknownVoice { voice } => SynthErrorView::UnknownVoice { voice: voice@ },
            SynthError::Inference => SynthErrorView::Inference,
        }
    }
}

/// How a text is synthesized, by the number of its tokens.
#[derive(Debug, Clone, Copy, PartialEq, Eq)]
pub enum Plan {
    /// No token: silence stands for the text, and the model is not run.
    Silent,
    /// Within the limit: the model is run once on the whole text.
    Direct,
    /// Over the limit: the text is cut into sentences.
    Segmented,
}

/// How a text of `token_count` tokens is synthesized.
pub open spec fn spec_plan(token_count: nat) -> Plan {
    if token_count == 0 {
        Plan::Silent
    } else if token_count > MAX_TOKENS {
        Plan::Segmented
    } else {
        Plan::Direct
    }
}

/// How a text of `token_count` tokens is synthesized.
pub fn plan(token_count: usize) -> (p: Plan)
    ensures
        p == spec_plan(token_count as nat),
{
    if token_count == 0 {
        Plan::Silent
    } else if token_count > MAX_TOKENS {
        Plan::Segmented
    } else {
        Plan::Direct
    }
}

/// The token sequence that the model is given: the tokens between two pad tokens.
pub open spec fn spec_pad(tokens: Seq<i64>) -> Seq<i64> {
    seq![PAD_TOKEN] + tokens + seq![PAD_TOKEN]
}

/// The tokens between two pad tokens.
pub fn pad_tokens(tokens: &Vec<i64>) -> (padded: Vec<i64>)
    ensures
        padded@ == spec_pad(tokens@),
{
    let mut padded: Vec<i64> = Vec::new();
    padded.push(PAD_TOKEN);
    let mut i: usize = 0;
    while i < tokens.len()
        invariant
            i <= tokens.len(),
            padded@ == seq![PAD_TOKEN] + tokens@.take(i as int),
        decreases tokens.len() - i,
    {
        padded.push(tokens[i]);
        i += 1;
    }
    assert(tokens@.take(tokens.len() as int) == tokens@);
    padded.push(PAD_TOKEN);
    padded
}

/// Whether `tokens` and `style` are fit for the model: between one and `MAX_TOKENS` tokens of
/// the symbol table, with a pad token before and after them, and a style vector of
/// `STYLE_DIM` components.
pub open spec fn spec_model_input(tokens: Seq<i64>, style: Seq<u32>) -> bool {
    &&& 2 < tokens.len() <= MAX_TOKENS + 2
    &&& tokens.first() == PAD_TOKEN
    &&& tokens.last() == PAD_TOKEN
    &&& forall|i: int| 0 <= i < tokens.len() ==> 0 <= #[trigger] tokens[i] < SYMBOL_COUNT
    &&& style.len() == STYLE_DIM
}

/// The name of the voice of a request: the one it names, or the default.
pub open spec fn spec_voice_name(default_voice: Seq<char>, voice: Option<Seq<char>>) -> Seq<char> {
    match voice {
        Some(name) => name,
        None => default_voice,
    }
}

/// The style vector for a request, or none where its voice is not among `voices`.
pub open spec fn spec_select_style(
    voices: Map<Seq<char>, Seq<Seq<u32>>>,
    default_voice: Seq<char>,
    voice: Option<Seq<char>>,
) -> Option<Seq<u32>> {
    let name = spec_voice_name(default_voice, voice);
    if voices.contains_key(name) {
        Some(spec_style(voices[name]))
    } else {
        None
    }
}

/// The waveform of a segmented request: the segments joined with gaps of silence, or a
/// second of silence where the segments hold no sample at all.
pub open spec fn spec_combined<T>(segments: Seq<Seq<T>>, zero: T) -> Seq<T> {
    let joined = spec_join(segments, spec_silence(zero, GAP_SAMPLES as nat));
    if joined.len() == 0 {
        spec_silence(zero, SILENCE_SAMPLES as nat)
    } else {
        joined
    }
}

/// The state of a request in progress.
pub struct SynthesisView<T> {
    /// The text of the request.
    pub text: Seq<char>,
    /// The voice that the request names.
    pub voice: Option<Seq<char>>,
    /// The sample value of silence.
    pub zero: T,
    /// Whether the text has been cut into sentences.
    pub segmented: bool,
    /// The sentences, once the text has been cut.
    pub units: Seq<Seq<char>>,
    /// The position of the sentence in work.
    pub cursor: int,
    /// The waveforms of the sentences done so far, without those that failed.
    pub segments: Seq<Seq<T>>,
}

impl<T> SynthesisView<T> {
    /// The text in work: the sentence at the cursor, or the whole text.
    pub open spec fn current(self) -> Seq<char> {
        if self.segmented {
            self.units[self.cursor]
        } else {
            self.text
        }
    }

    /// The state after the sentence in work has yielded `segment`.
    pub open spec fn accept(self, segment: Seq<T>) -> SynthesisView<T> {
        SynthesisView { segments: self.segments.push(segment), ..self }
    }
}

/// What the caller does next.
pub enum StepView<T> {
    Phonemize { text: Seq<char>, then: SynthesisView<T> },
    Infer { tokens: Seq<i64>, style: Seq<u32>, then: SynthesisView<T> },
    Done { audio: Seq<T> },
    Failed { error: SynthErrorView },
}

/// How a request that was cut into sentences ends, once every sentence is over: with the
/// segments joined, or, where not one sentence yielded a segment, with a failure.
pub open spec fn spec_outcome<T>(segments: Seq<Seq<T>>, zero: T) -> StepView<T> {
    if segments.len() == 0 {
        StepView::Failed { error: SynthErrorView::Inference }
    } else {
        StepView::Done { audio: spec_combined(segments, zero) }
    }
}

/// The step after the sentence in work is over: the next sentence, or the end.
pub open spec fn spec_advance<T>(s: SynthesisView<T>) -> StepView<T> {
    if s.cursor + 1 < s.units.len() {
        StepView::Phonemize {
            text: s.units[s.cursor + 1],
            then: SynthesisView { cursor: s.cursor + 1, ..s },
        }
    } else {
        spec_outcome(s.segments, s.zero)
    }
}

/// The step after the phonemizer has answered with `phonemes` for the text in work.
///
/// An unknown voice fails the request wherever the voice is looked up: before a text goes
/// to the model, and before a text is cut.
///
/// The whole text, before it is cut: without tokens it yields a second of silence; within
/// the limit it goes to the model; over the limit it is cut into sentences, and the first
/// goes to the phonemizer, or, where it has no sentence, it yields a second of silence.
///
/// A sentence: without tokens it yields a second of silence as its segment; within the limit
/// it goes to the model; over the limit it is passed over.
pub open spec fn spec_on_phonemes<T>(
    voices: Map<Seq<char>, Seq<Seq<u32>>>,
    default_voice: Seq<char>,
    s: SynthesisView<T>,
    phonemes: Seq<char>,
) -> StepView<T> {
    let tokens = spec_tokenize(phonemes);
    let unknown = StepView::Failed {
        error: SynthErrorView::UnknownVoice { voice: spec_voice_name(default_voice, s.voice) },
    };
    match spec_plan(tokens.len()) {
        Plan::Silent => if s.segmented {
            spec_advance(s.accept(spec_silence(s.zero, SILENCE_SAMPLES as nat)))
        } else {
            StepView::Done { audio: spec_silence(s.zero, SILENCE_SAMPLES as nat) }
        },
        Plan::Segmented => if s.segmented {
            spec_advance(s)
        } else if spec_select_style(voices, default_voice, s.voice) is None {
            unknown
        } else if spec_sentences(s.text).len() > 0 {
            StepView::Phonemize {
                text: spec_sentences(s.text)[0],
                then: SynthesisView {
                    segmented: true,
                    units: spec_sentences(s.text),
                    cursor: 0,
                    ..s
                },
            }
        } else {
            StepView::Done { audio: spec_silence(s.zero, SILENCE_SAMPLES as nat) }
        },
        Plan::Direct => match spec_select_style(voices, default_voice, s.voice) {
            Some(style) => StepView::Infer { tokens: spec_pad(tokens), style, then: s },
            None => unknown,
        },
    }
}

/// The step after the model has answered for the text in work, with a waveform or with a
/// failure. For the whole text the answer ends the request. For a sentence, the waveform is
/// its segment and a failure passes it over; a request none of whose sentences yields a
/// segment fails when the last sentence is over.
pub open spec fn spec_on_audio<T>(s: SynthesisView<T>, audio: Option<Seq<T>>) -> StepView<T> {
    match audio {
        Some(samples) => if s.segmented {
            spec_advance(s.accept(samples))
        } else {
            StepView::Done { audio: samples }
        },
        None => if s.segmented {
            spec_advance(s)
        } else {
            StepView::Failed { error: SynthErrorView::Inference }
        },
    }
}

/// The segment that a sentence with the phonemes `phonemes` yields, where `model` stands for
/// the model and `style` is the style vector of the request: a second of silence without
/// tokens, the model's waveform within the limit, and none over the limit or where the model
/// fails.
pub open spec fn spec_unit_segment<T>(
    zero: T,
    phonemes: Seq<char>,
    style: Seq<u32>,
    model: spec_fn(Seq<i64>, Seq<u32>) -> Option<Seq<T>>,
) -> Option<Seq<T>> {
    let tokens = spec_tokenize(phonemes);
    match spec_plan(tokens.len()) {
        Plan::Silent => Some(spec_silence(zero, SILENCE_SAMPLES as nat)),
        Plan::Segmented => None,
        Plan::Direct => model(spec_pad(tokens), style),
    }
}

/// The segments that the sentences `units` yield, in the order of the sentences, where
/// `phonemizer` stands for the phonemizer and `model` for the model.
pub open spec fn spec_segments<T>(
    zero: T,
    units: Seq<Seq<char>>,
    style: Seq<u32>,
    phonemizer: spec_fn(Seq<char>) -> Seq<char>,
    model: spec_fn(Seq<i64>, Seq<u32>) -> Option<Seq<T>>,
) -> Seq<Seq<T>>
    decreases units.len(),
{
    if units.len() == 0 {
        Seq::empty()
    } else {
        let rest = spec_segments(zero, units.skip(1), style, phonemizer, model);
        match spec_unit_segment(zero, phonemizer(units[0]), style, model) {
            Some(segment) => seq![segment] + rest,
            None => rest,
        }
    }
}

/// How a request ends, where `phonemizer` stands for the phonemizer and `model` for the
/// model.
///
/// A text without tokens is a second of silence. Any other text fails with an unknown
/// voice. A text within the limit is the model's waveform, and fails where the model fails.
/// A text over the limit is the segments of its sentences, joined with gaps of silence; it
/// fails where it has sentences and not one of them yields a segment, and is a second of
/// silence where it has no sentence.
pub open spec fn spec_synthesize<T>(
    voices: Map<Seq<char>, Seq<Seq<u32>>>,
    default_voice: Seq<char>,
    text: Seq<char>,
    voice: Option<Seq<char>>,
    zero: T,
    phonemizer: spec_fn(Seq<char>) -> Seq<char>,
    model: spec_fn(Seq<i64>, Seq<u32>) -> Option<Seq<T>>,
) -> StepView<T> {
    let tokens = spec_tokenize(phonemizer(text));
    let quiet = StepView::Done { audio: spec_silence(zero, SILENCE_SAMPLES as nat) };
    match (spec_plan(tokens.len()), spec_select_style(voices, default_voice, voice)) {
        (Plan::Silent, _) => quiet,
        (_, None) => StepView::Failed {
            error: SynthErrorView::UnknownVoice { voice: spec_voice_name(default_voice, voice) },
        },
        (Plan::Direct, Some(style)) => match model(spec_pad(tokens), style) {
            Some(audio) => StepView::Done { audio },
            None => StepView::Failed { error: SynthErrorView::Inference },
        },
        (Plan::Segmented, Some(style)) => if spec_sentences(text).len() == 0 {
            quiet
        } else {
            spec_outcome(
                spec_segments(zero, spec_sentences(text), style, phonemizer, model),
                zero,
            )
        },
    }
}

/// The last step of a request that is in the state `s` and waits for phonemes, where every
/// step in between is answered by `phonemizer` or by `model`.
pub open spec fn spec_run<T>(
    voices: Map<Seq<char>, Seq<Seq<u32>>>,
    default_voice: Seq<char>,
    s: SynthesisView<T>,
    phonemizer: spec_fn(Seq<char>) -> Seq<char>,
    model: spec_fn(Seq<i64>, Seq<u32>) -> Option<Seq<T>>,
) -> StepView<T>
    decreases
            (if s.segmented {
                0int
            } else {
                1int
            }),
            s.units.len() - s.cursor,
{
    let answered = match spec_on_phonemes(voices, default_voice, s, phonemizer(s.current())) {
        StepView::Infer { tokens, style, then } => spec_on_audio(then, model(tokens, style)),
        other => other,
    };
    match answered {
        StepView::Phonemize { text, then } => spec_run(
            voices,
            default_voice,
            then,
            phonemizer,
            model,
        ),
        other => other,
    }
}

/// A request with a known voice that has been cut into sentences ends as the segments so
/// far and those of the sentences still to do decide: joined in the order of the sentences,
/// or failed where there is none.
pub proof fn lemma_run_sentences<T>(
    voices: Map<Seq<char>, Seq<Seq<u32>>>,
    default_voice: Seq<char>,
    s: SynthesisView<T>,
    phonemizer: spec_fn(Seq<char>) -> Seq<char>,
    model: spec_fn(Seq<i64>, Seq<u32>) -> Option<Seq<T>>,
)
    requires
        s.segmented,
        0 <= s.cursor < s.units.len(),
        spec_select_style(voices, default_voice, s.voice) is Some,
    ensures
        spec_run(voices, default_voice, s, phonemizer, model) == spec_outcome(
            s.segments + spec_segments(
                s.zero,
                s.units.skip(s.cursor),
                spec_select_style(voices, default_voice, s.voice)->0,
                phonemizer,
                model,
            ),
            s.zero,
        ),
    decreases s.units.len() - s.cursor,
{
    let style = spec_select_style(voices, default_voice, s.voice)->0;
    let rest = s.units.skip(s.cursor);
    let segment = spec_unit_segment(s.zero, phonemizer(s.current()), style, model);
    let grown = match segment {
        Some(samples) => s.accept(samples),
        None => s,
    };
    assert(rest[0] == s.current());
    assert(rest.skip(1) == s.units.skip(s.cursor + 1));
    let later = spec_segments(s.zero, s.units.skip(s.cursor + 1), style, phonemizer, model);
    assert(grown.segments + later == s.segments + spec_segments(
        s.zero,
        rest,
        style,
        phonemizer,
        model,
    ));
    if s.cursor + 1 < s.units.len() {
        let next = SynthesisView { cursor: s.cursor + 1, ..grown };
        lemma_run_sentences(voices, default_voice, next, phonemizer, model);
    } else {
        assert(s.units.skip(s.cursor + 1).len() == 0);
        assert(grown.segments + later == grown.segments);
    }
}

/// A request ends as `spec_synthesize` says, whatever the phonemizer and the model answer.
pub proof fn lemma_run<T>(
    voices: Map<Seq<char>, Seq<Seq<u32>>>,
    default_voice: Seq<char>,
    text: Seq<char>,
    voice: Option<Seq<char>>,
    zero: T,
    phonemizer: spec_fn(Seq<char>) -> Seq<char>,
    model: spec_fn(Seq<i64>, Seq<u32>) -> Option<Seq<T>>,
)
    ensures
        spec_run(
            voices,
            default_voice,
            SynthesisView {
                text,
                voice,
                zero,
                segmented: false,
                units: Seq::empty(),
                cursor: 0,
                segments: Seq::empty(),
            },
            phonemizer,
            model,
        ) == spec_synthesize(voices, default_voice, text, voice, zero, phonemizer, model),
{
    let s = SynthesisView {
        text,
        voice,
        zero,
        segmented: false,
        units: Seq::empty(),
        cursor: 0,
        segments: Seq::<Seq<T>>::empty(),
    };
    let units = spec_sentences(text);
    let style = spec_select_style(voices, default_voice, voice);
    if spec_plan(spec_tokenize(phonemizer(text)).len()) == Plan::Segmented && style is Some
        && units.len() > 0 {
        let cut = SynthesisView { segmented: true, units, cursor: 0, ..s };
        lemma_run_sentences(voices, default_voice, cut, phonemizer, model);
        assert(units.skip(0) == units);
        let segments = spec_segments(zero, units, style->0, phonemizer, model);
        assert(cut.segments + segments == segments);
    }
}

/// An unknown voice fails every request whose text has a token, short or long, and no step
/// of such a request runs the model.
pub proof fn lemma_unknown_voice_fails<T>(
    voices: Map<Seq<char>, Seq<Seq<u32>>>,
    default_voice: Seq<char>,
    text: Seq<char>,
    voice: Option<Seq<char>>,
    zero: T,
    phonemizer: spec_fn(Seq<char>) -> Seq<char>,
    model: spec_fn(Seq<i64>, Seq<u32>) -> Option<Seq<T>>,
)
    requires
        spec_select_style(voices, default_voice, voice) is None,
        spec_tokenize(phonemizer(text)).len() > 0,
    ensures
        spec_synthesize(voices, default_voice, text, voice, zero, phonemizer, model) == (
        StepView::<T>::Failed {
            error: SynthErrorView::UnknownVoice { voice: spec_voice_name(default_voice, voice) },
        }),
{
}

/// A text over the limit whose sentences all fail, or are all over the limit themselves,
/// fails: no waveform stands for it.
pub proof fn lemma_total_failure_fails<T>(
    voices: Map<Seq<char>, Seq<Seq<u32>>>,
    default_voice: Seq<char>,
    text: Seq<char>,
    voice: Option<Seq<char>>,
    zero: T,
    phonemizer: spec_fn(Seq<char>) -> Seq<char>,
    model: spec_fn(Seq<i64>, Seq<u32>) -> Option<Seq<T>>,
)
    requires
        spec_select_style(voices, default_voice, voice) is Some,
        spec_tokenize(phonemizer(text)).len() > MAX_TOKENS,
        spec_sentences(text).len() > 0,
        forall|k: int|
            0 <= k < spec_sentences(text).len() ==> spec_unit_segment(
                zero,
                phonemizer(#[trigger] spec_sentences(text)[k]),
                spec_select_style(voices, default_voice, voice)->0,
                model,
            ) is None,
    ensures
        spec_synthesize(voices, default_voice, text, voice, zero, phonemizer, model) == (
        StepView::<T>::Failed { error: SynthErrorView::Inference }),
{
    let style = spec_select_style(voices, default_voice, voice)->0;
    lemma_no_segments(zero, spec_sentences(text), style, phonemizer, model);
}

/// Sentences none of which yields a segment yield no segments.
proof fn lemma_no_segments<T>(
    zero: T,
    units: Seq<Seq<char>>,
    style: Seq<u32>,
    phonemizer: spec_fn(Seq<char>) -> Seq<char>,
    model: spec_fn(Seq<i64>, Seq<u32>) -> Option<Seq<T>>,
)
    requires
        forall|k: int|
            0 <= k < units.len() ==> spec_unit_segment(
                zero,
                phonemizer(#[trigger] units[k]),
                style,
                model,
            ) is None,
    ensures
        spec_segments(zero, units, style, phonemizer, model).len() == 0,
    decreases units.len(),
{
    if units.len() > 0 {
        assert forall|k: int| 0 <= k < units.skip(1).len() implies spec_unit_segment(
            zero,
            phonemizer(#[trigger] units.skip(1)[k]),
            style,
            model,
        ) is None by {
            assert(units.skip(1)[k] == units[k + 1]);
        }
        lemma_no_segments(zero, units.skip(1), style, phonemizer, model);
    }
}

/// The waveform of a request that was cut into sentences is as long as its segments
/// together and one gap fewer than there are segments; where that is nothing, it is a second
/// of silence.
pub proof fn lemma_combined_len<T>(segments: Seq<Seq<T>>, zero: T)
    ensures
        spec_combined(segments, zero).len() == if segments.len() > 0 && spec_total_len(segments)
            + (segments.len() - 1) * GAP_SAMPLES > 0 {
            spec_total_len(segments) + (segments.len() - 1) * GAP_SAMPLES
        } else {
            SILENCE_SAMPLES as int
        },
{
    if segments.len() > 0 {
        lemma_join_len(segments, spec_silence(zero, GAP_SAMPLES as nat));
    }
}

/// The state of a request in progress.
struct Progress<T> {
    text: String,
    voice: Option<String>,
    zero: T,
    gap: Vec<T>,
    segmented: bool,
    units: Vec<String>,
    cursor: usize,
    output: Vec<T>,
    started: bool,
    segments: Ghost<Seq<Seq<T>>>,
}

impl<T> Progress<T> {
    /// The waveform so far is the segments so far, joined; nothing is joined before the
    /// text is cut; and the cursor is at a sentence.
    spec fn wf(&self) -> bool {
        &&& self.gap@ == spec_silence(self.zero, GAP_SAMPLES as nat)
        &&& self.output@ == spec_join(self.segments@, self.gap@)
        &&& self.started == (self.segments@.len() > 0)
        &&& if self.segmented {
            self.cursor < self.units.len()
        } else {
            self.cursor == 0 && self.units.len() == 0 && self.segments@.len() == 0
        }
    }

    /// The state without the waveform, which the segments determine.
    spec fn view(&self) -> SynthesisView<T> {
        SynthesisView {
            text: self.text@,
            voice: match self.voice {
                Some(name) => Some(name@),
                None => None,
            },
            zero: self.zero,
            segmented: self.segmented,
            units: self.units.deep_view(),
            cursor: self.cursor as int,
            segments: self.segments@,
        }
    }
}

/// A request that waits for the phonemes of the text in work.
pub struct AwaitPhonemes<T> {
    progress: Progress<T>,
}

/// A request that waits for the model's waveform of the text in work.
pub struct AwaitAudio<T> {
    progress: Progress<T>,
}

impl<T> View for AwaitPhonemes<T> {
    type V = SynthesisView<T>;

    closed spec fn view(&self) -> SynthesisView<T> {
        self.progress.view()
    }
}

impl<T> View for AwaitAudio<T> {
    type V = SynthesisView<T>;

    closed spec fn view(&self) -> SynthesisView<T> {
        self.progress.view()
    }
}

impl<T> AwaitPhonemes<T> {
    #[verifier::type_invariant]
    spec fn wf(&self) -> bool {
        self.progress.wf()
    }
}

impl<T> AwaitAudio<T> {
    #[verifier::type_invariant]
    spec fn wf(&self) -> bool {
        self.progress.wf()
    }
}

/// What the caller does next for a request.
#[allow(inconsistent_fields)]
pub enum Step<T> {
    /// Run the phonemizer on `text` and hand what came back to `on_tool_run`, or the
    /// phonemes to `on_phonemes`, together with `then`.
    Phonemize { text: String, then: AwaitPhonemes<T> },
    /// Run the model on `tokens` with the style vector `style`, given as bit patterns, and
    /// hand the waveform, or none on a failure, to `on_audio` together with `then`.
    Infer { tokens: Vec<i64>, style: Vec<u32>, then: AwaitAudio<T> },
    /// The request is over, and `audio` is its waveform.
    Done { audio: Vec<T> },
    /// The request has failed.
    Failed { error: SynthError },
}

impl<T> View for Step<T> {
    type V = StepView<T>;

    open spec fn view(&self) -> StepView<T> {
        match self {
            Step::Phonemize { text, then } => StepView::Phonemize { text: text@, then: then@ },
            Step::Infer { tokens, style, then } => StepView::Infer {
                tokens: tokens@,
                style: style@,
                then: then@,
            },
            Step::Done { audio } => StepView::Done { audio: audio@ },
            Step::Failed { error } => StepView::Failed { error: error@ },
        }
    }
}

/// The step after the sentence in work is over.
fn advance<T: Copy>(progress: Progress<T>) -> (step: Step<T>)
    requires
        progress.wf(),
        progress.segmented,
    ensures
        step@ == spec_advance(progress.view()),
{
    let mut progress = progress;
    let next = progress.cursor + 1;
    if next < progress.units.len() {
        let text = progress.units[next].clone();
        assert(progress.units.deep_view()[next as int] == progress.units[next as int]@);
        progress.cursor = next;
        Step::Phonemize { text, then: AwaitPhonemes { progress } }
    } else if !progress.started {
        Step::Failed { error: SynthError::Inference }
    } else if progress.output.len() == 0 {
        Step::Done { audio: silence(progress.zero, SILENCE_SAMPLES) }
    } else {
        Step::Done { audio: progress.output }
    }
}

/// The state after the sentence in work has yielded `segment`, which is joined to the
/// waveform so far.
fn accept<T: Copy>(progress: Progress<T>, segment: &Vec<T>) -> (grown: Progress<T>)
    requires
        progress.wf(),
        progress.segmented,
    ensures
        grown.wf(),
        grown.view() == progress.view().accept(segment@),
{
    let mut grown = progress;
    let ghost before = grown.segments@;
    if grown.started {
        extend(&mut grown.output, &grown.gap);
    }
    extend(&mut grown.output, segment);
    grown.started = true;
    proof {
        grown.segments@ = before.push(segment@);
        assert(before.push(segment@).drop_last() == before);
    }
    grown
}

/// The engine's share of a request: the symbol table, the voices, and every decision between
/// two runs of the phonemizer or of the model.
pub struct TTSEngine {
    vocab: Vocab,
    voices: VoiceStore,
    default_voice: String,
}

impl TTSEngine {
    /// The symbol table of the engine holds the vocabulary.
    #[verifier::type_invariant]
    spec fn wf(&self) -> bool {
        self.vocab@ == spec_vocab()
    }

    /// The symbol table of the engine.
    pub closed spec fn spec_table(&self) -> Vocab {
        self.vocab
    }

    /// The voices of the engine, by name.
    pub closed spec fn spec_voices(&self) -> Map<Seq<char>, Seq<Seq<u32>>> {
        self.voices@
    }

    /// The voice of a request that names none.
    pub closed spec fn spec_default_voice(&self) -> Seq<char> {
        self.default_voice@
    }

    /// An engine with the voices of `voices` and the default voice `DEFAULT_VOICE`.
    pub fn new(voices: VoiceStore) -> (engine: TTSEngine)
        ensures
            engine.spec_table()@ == spec_vocab(),
            engine.spec_voices() == voices@,
            engine.spec_default_voice() == DEFAULT_VOICE@,
    {
        TTSEngine { vocab: build_vocab(), voices, default_voice: DEFAULT_VOICE.to_owned() }
    }

    /// The sampling rate of the engine's waveforms, in Hz.
    pub fn sample_rate(&self) -> (rate: u32)
        ensures
            rate == SAMPLE_RATE,
    {
        SAMPLE_RATE
    }

    /// The symbol table of the engine: the engine's own table, which holds the vocabulary.
    pub fn vocab(&self) -> (vocab: &Vocab)
        ensures
            *vocab == self.spec_table(),
            vocab@ == spec_vocab(),
    {
        proof {
            use_type_invariant(self);
        }
        &self.vocab
    }

    /// The voices of the engine.
    pub fn voices(&self) -> (voices: &VoiceStore)
        ensures
            voices@ == self.spec_voices(),
    {
        &self.voices
    }

    /// The style vector for a request that names `voice`: the first vector of that voice,
    /// or of the default voice where it names none. An unknown voice is refused.
    pub fn select_style(&self, voice: Option<&str>) -> (selected: Result<Vec<u32>, SynthError>)
        ensures
            match spec_select_style(
                self.spec_voices(),
                self.spec_default_voice(),
                voice_view(voice),
            ) {
                Some(style) => selected is Ok && selected->Ok_0@ == style && style.len()
                    == STYLE_DIM,
                None => selected is Err && selected->Err_0@ == (SynthErrorView::UnknownVoice {
                    voice: spec_voice_name(self.spec_default_voice(), voice_view(voice)),
                }),
            },
    {
        let name = match voice {
            Some(name) => name,
            None => self.default_voice.as_str(),
        };
        match self.voices.get(name) {
            Some(found) => Ok(found.style()),
            None => Err(SynthError::UnknownVoice { voice: name.to_owned() }),
        }
    }

    /// Begins a request for `text` spoken by `voice`. `zero` is the sample value of silence.
    /// The first step is always to phonemize the whole text.
    pub fn synthesize<T: Copy>(&self, text: &str, voice: Option<&str>, zero: T) -> (step: Step<T>)
        ensures
            step@ == (StepView::Phonemize {
                text: text@,
                then: SynthesisView {
                    text: text@,
                    voice: voice_view(voice),
                    zero,
                    segmented: false,
                    units: Seq::empty(),
                    cursor: 0,
                    segments: Seq::empty(),
                },
            }),
    {
        let progress = Progress {
            text: text.to_owned(),
            voice: match voice {
                Some(name) => Some(name.to_owned()),
                None => None,
            },
            zero,
            gap: silence(zero, GAP_SAMPLES),
            segmented: false,
            units: Vec::new(),
            cursor: 0,
            output: Vec::new(),
            started: false,
            segments: Ghost(Seq::empty()),
        };
        assert(progress.units.deep_view() =~= Seq::<Seq<char>>::empty());
        Step::Phonemize { text: text.to_owned(), then: AwaitPhonemes { progress } }
    }

    /// The step after the phonemizer has answered with `phonemes` for the text in work.
    pub fn on_phonemes<T: Copy>(&self, job: AwaitPhonemes<T>, phonemes: &str) -> (step: Step<T>)
        ensures
            step@ == spec_on_phonemes(
                self.spec_voices(),
                self.spec_default_voice(),
                job@,
                phonemes@,
            ),
            step matches Step::Infer { tokens, style, .. } ==> spec_model_input(tokens@, style@),
    {
        proof {
            use_type_invariant(&job);
            lemma_tokens_in_range(phonemes@);
        }
        let progress = job.progress;
        let tokens = self.vocab.tokenize(phonemes);
        let voice: Option<&str> = match &progress.voice {
            Some(name) => Some(name.as_str()),
            None => None,
        };
        match plan(tokens.len()) {
            Plan::Silent => {
                if progress.segmented {
                    let quiet = silence(progress.zero, SILENCE_SAMPLES);
                    advance(accept(progress, &quiet))
                } else {
                    Step::Done { audio: silence(progress.zero, SILENCE_SAMPLES) }
                }
            },
            Plan::Segmented => {
                if progress.segmented {
                    return advance(progress);
                }
                match self.select_style(voice) {
                    Ok(_) => {},
                    Err(error) => {
                        return Step::Failed { error };
                    },
                }
                let units = split_sentences(progress.text.as_str());
                if units.len() > 0 {
                    let text = units[0].clone();
                    assert(units.deep_view()[0] == units[0]@);
                    let mut progress = progress;
                    progress.segmented = true;
                    progress.units = units;
                    Step::Phonemize { text, then: AwaitPhonemes { progress } }
                } else {
                    Step::Done { audio: silence(progress.zero, SILENCE_SAMPLES) }
                }
            },
            Plan::Direct => {
                match self.select_style(voice) {
                    Ok(style) => Step::Infer {
                        tokens: pad_tokens(&tokens),
                        style,
                        then: AwaitAudio { progress },
                    },
                    Err(error) => Step::Failed { error },
                }
            },
        }
    }

    /// The step after the phonemizer tool has been run on the text in work: as
    /// `on_phonemes` with the phonemes that `simple_phonemize` makes of what came back.
    pub fn on_tool_run<T: Copy>(&self, job: AwaitPhonemes<T>, run: Option<&ToolRun>) -> (step:
        Step<T>)
        ensures
            step@ == spec_on_phonemes(
                self.spec_voices(),
                self.spec_default_voice(),
                job@,
                spec_phonemize(job@.current(), run_view(run)),
            ),
            step matches Step::Infer { tokens, style, .. } ==> spec_model_input(tokens@, style@),
    {
        proof {
            use_type_invariant(&job);
        }
        let phonemes = if job.progress.segmented {
            assert(job.progress.units.deep_view()[job.progress.cursor as int]
                == job.progress.units[job.progress.cursor as int]@);
            simple_phonemize(&self.vocab, job.progress.units[job.progress.cursor].as_str(), run)
        } else {
            simple_phonemize(&self.vocab, job.progress.text.as_str(), run)
        };
        self.on_phonemes(job, phonemes.text.as_str())
    }

    /// The step after the model has answered for the text in work: with its waveform, or
    /// with none where it failed.
    pub fn on_audio<T: Copy>(&self, job: AwaitAudio<T>, audio: Option<Vec<T>>) -> (step: Step<T>)
        ensures
            step@ == spec_on_audio(
                job@,
                match audio {
                    Some(samples) => Some(samples@),
                    None => None,
                },
            ),
    {
        proof {
            use_type_invariant(&job);
        }
        let progress = job.progress;
        match audio {
            Some(samples) => {
                if progress.segmented {
                    advance(accept(progress, &samples))
                } else {
                    Step::Done { audio: samples }
                }
            },
            None => {
                if progress.segmented {
                    advance(progress)
                } else {
                    Step::Failed { error: SynthError::Inference }
                }
            },
        }
    }
}

} // verus!
