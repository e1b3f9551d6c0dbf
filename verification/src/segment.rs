//! Cutting a text into sentences, and joining the waveforms of the sentences with gaps of
//! silence.

use crate::text::{
    chars_of, lemma_trim_empty_iff_blank, spec_is_blank, spec_is_whitespace, spec_trim, string_of,
    trim,
};
use vstd::prelude::*;

verus! {

/// The number of samples of silence that stand between two segments: 300 ms at 24 kHz.
pub const GAP_SAMPLES: usize = 7200;

/// The number of samples of silence that stand for a text without tokens: one second at
/// 24 kHz.
pub const SILENCE_SAMPLES: usize = 24000;

/// Whether `c` ends a sentence: a full stop, an exclamation mark, a question mark, or an
/// ideographic full stop.
pub open spec fn spec_is_terminator(c: char) -> bool {
    c == '.' || c == '!' || c == '?' || c == '\u{3002}'
}

/// Whether `c` ends a sentence.
pub fn is_terminator(c: char) -> (b: bool)
    ensures
        b == spec_is_terminator(c),
{
    c == '.' || c == '!' || c == '?' || c == '\u{3002}'
}

/// The position of the first sentence terminator in `s`, or the length of `s` if it has
/// none.
pub open spec fn spec_first_terminator(s: Seq<char>) -> int
    decreases s.len(),
{
    if s.len() == 0 || spec_is_terminator(s[0]) {
        0
    } else {
        1 + spec_first_terminator(s.skip(1))
    }
}

/// The pieces into which the sentence terminators cut `s`: one more piece than there are
/// terminators, each without a terminator, some possibly empty.
pub open spec fn spec_pieces(s: Seq<char>) -> Seq<Seq<char>>
    decreases s.len(),
{
    let cut = spec_first_terminator(s);
    if 0 <= cut < s.len() {
        seq![s.take(cut)] + spec_pieces(s.skip(cut + 1))
    } else {
        seq![s]
    }
}

/// The sentence units of a text: its pieces, each without leading and trailing whitespace,
/// leaving out those of which nothing remains.
pub open spec fn spec_sentences(text: Seq<char>) -> Seq<Seq<char>> {
    spec_pieces(text).map_values(|piece: Seq<char>| spec_trim(piece)).filter(
        |unit: Seq<char>| unit.len() > 0,
    )
}

/// Where `s` has no terminator before position `k`, its first terminator is at `k` if one
/// stands there, and `s` has none if `k` is its length.
proof fn lemma_first_terminator(s: Seq<char>, k: int)
    requires
        0 <= k <= s.len(),
        forall|j: int| 0 <= j < k ==> !spec_is_terminator(#[trigger] s[j]),
        k < s.len() ==> spec_is_terminator(s[k]),
    ensures
        spec_first_terminator(s) == k,
    decreases k,
{
    if k > 0 {
        assert(!spec_is_terminator(s[0]));
        assert forall|j: int| 0 <= j < k - 1 implies !spec_is_terminator(
            #[trigger] s.skip(1)[j],
        ) by {
            assert(s.skip(1)[j] == s[j + 1]);
        }
        lemma_first_terminator(s.skip(1), k - 1);
    }
}

/// The first terminator of `s` stands within `s` or at its end, no terminator stands before
/// it, and one stands at it unless it is the end.
proof fn lemma_first_terminator_is_first(s: Seq<char>)
    ensures
        0 <= spec_first_terminator(s) <= s.len(),
        forall|j: int|
            0 <= j < spec_first_terminator(s) ==> !spec_is_terminator(#[trigger] s[j]),
        spec_first_terminator(s) < s.len() ==> spec_is_terminator(s[spec_first_terminator(s)]),
    decreases s.len(),
{
    if s.len() > 0 && !spec_is_terminator(s[0]) {
        lemma_first_terminator_is_first(s.skip(1));
        assert forall|j: int| 0 <= j < spec_first_terminator(s) implies !spec_is_terminator(
            #[trigger] s[j],
        ) by {
            if j > 0 {
                assert(s[j] == s.skip(1)[j - 1]);
            }
        }
    }
}

/// A terminator between two texts keeps their pieces apart: the pieces of the whole are
/// those of the first text and then those of the second.
pub proof fn lemma_pieces_concat(a: Seq<char>, t: char, b: Seq<char>)
    requires
        spec_is_terminator(t),
    ensures
        spec_pieces(a + seq![t] + b) == spec_pieces(a) + spec_pieces(b),
    decreases a.len(),
{
    let s = a + seq![t] + b;
    let cut = spec_first_terminator(a);
    lemma_first_terminator_is_first(a);
    assert forall|j: int| 0 <= j < cut implies !spec_is_terminator(#[trigger] s[j]) by {
        assert(s[j] == a[j]);
    }
    if cut == a.len() {
        lemma_first_terminator(s, cut);
        assert(s.take(cut) == a);
        assert(s.skip(cut + 1) == b);
    } else {
        assert(s[cut] == a[cut]);
        lemma_first_terminator(s, cut);
        assert(s.take(cut) == a.take(cut));
        assert(s.skip(cut + 1) == a.skip(cut + 1) + seq![t] + b);
        lemma_pieces_concat(a.skip(cut + 1), t, b);
    }
}

/// A terminator between two texts keeps their sentences apart: the sentences of the whole
/// are those of the first text and then those of the second.
pub proof fn lemma_sentences_concat(a: Seq<char>, t: char, b: Seq<char>)
    requires
        spec_is_terminator(t),
    ensures
        spec_sentences(a + seq![t] + b) == spec_sentences(a) + spec_sentences(b),
{
    let trim_of = |piece: Seq<char>| spec_trim(piece);
    let kept = |unit: Seq<char>| unit.len() > 0;
    lemma_pieces_concat(a, t, b);
    let (x, y) = (spec_pieces(a), spec_pieces(b));
    assert((x + y).map_values(trim_of) == x.map_values(trim_of) + y.map_values(trim_of));
    Seq::filter_distributes_over_add(x.map_values(trim_of), y.map_values(trim_of), kept);
}

/// Whether a sentence can begin with `c`: it is neither whitespace nor a terminator.
pub open spec fn spec_is_spoken(c: char) -> bool {
    !spec_is_whitespace(c) && !spec_is_terminator(c)
}

/// A text with a character that is neither whitespace nor a terminator has a sentence.
pub proof fn lemma_sentences_nonempty(a: Seq<char>, i: int)
    requires
        0 <= i < a.len(),
        spec_is_spoken(a[i]),
    ensures
        spec_sentences(a).len() >= 1,
    decreases a.len(),
{
    let trim_of = |piece: Seq<char>| spec_trim(piece);
    let kept = |unit: Seq<char>| unit.len() > 0;
    let cut = spec_first_terminator(a);
    lemma_first_terminator_is_first(a);
    if cut == a.len() {
        assert(spec_pieces(a) == seq![a]);
        lemma_trim_empty_iff_blank(a);
        assert(!spec_is_blank(a));
        assert(seq![a].map_values(trim_of) == Seq::<Seq<char>>::empty().push(spec_trim(a)));
        Seq::<Seq<char>>::empty().lemma_filter_push(spec_trim(a), kept);
        assert(Seq::<Seq<char>>::empty().filter(kept) == Seq::<Seq<char>>::empty()) by {
            reveal(Seq::filter);
        }
    } else {
        let (head, tail) = (a.take(cut), a.skip(cut + 1));
        assert(a == head + seq![a[cut]] + tail);
        lemma_sentences_concat(head, a[cut], tail);
        if i < cut {
            assert(head[i] == a[i]);
            assert forall|j: int| 0 <= j < head.len() implies !spec_is_terminator(
                #[trigger] head[j],
            ) by {
                assert(head[j] == a[j]);
            }
            lemma_first_terminator(head, cut);
            lemma_sentences_nonempty(head, i);
        } else {
            assert(tail[i - cut - 1] == a[i]);
            lemma_sentences_nonempty(tail, i - cut - 1);
        }
    }
}

/// Two texts that each hold a character that is neither whitespace nor a terminator, with a
/// terminator between them, are cut into at least two sentences.
pub proof fn lemma_two_sentences(a: Seq<char>, i: int, t: char, b: Seq<char>, j: int)
    requires
        0 <= i < a.len(),
        spec_is_spoken(a[i]),
        spec_is_terminator(t),
        0 <= j < b.len(),
        spec_is_spoken(b[j]),
    ensures
        spec_sentences(a + seq![t] + b).len() >= 2,
{
    lemma_sentences_concat(a, t, b);
    lemma_sentences_nonempty(a, i);
    lemma_sentences_nonempty(b, j);
}

/// The sentence units of `text`, in order.
pub fn split_sentences(text: &str) -> (units: Vec<String>)
    ensures
        units.deep_view() == spec_sentences(text@),
        forall|i: int| 0 <= i < units.len() ==> (#[trigger] units[i])@.len() > 0,
{
    let chars = chars_of(text);
    let n = chars.len();
    let mut units: Vec<String> = Vec::new();
    let mut piece: Vec<char> = Vec::new();
    let mut start: usize = 0;
    let mut i: usize = 0;
    let ghost mut done: Seq<Seq<char>> = Seq::empty();
    let ghost trim_of = |piece: Seq<char>| spec_trim(piece);
    let ghost kept = |unit: Seq<char>| unit.len() > 0;
    proof {
        assert(text@.skip(0) == text@);
        assert(done.map_values(trim_of).filter(kept) == Seq::<Seq<char>>::empty()) by {
            reveal(Seq::filter);
        }
    }
    while i < n
        invariant
            n == chars.len(),
            chars@ == text@,
            start <= i <= n,
            piece@ == text@.subrange(start as int, i as int),
            forall|j: int| start <= j < i ==> !spec_is_terminator(#[trigger] text@[j]),
            spec_pieces(text@) == done + spec_pieces(text@.skip(start as int)),
            units.deep_view() == done.map_values(trim_of).filter(kept),
            forall|k: int| 0 <= k < units.len() ==> (#[trigger] units[k])@.len() > 0,
            trim_of == |piece: Seq<char>| spec_trim(piece),
            kept == |unit: Seq<char>| unit.len() > 0,
        decreases n - i,
    {
        let c = chars[i];
        if is_terminator(c) {
            let unit = trim(&piece);
            proof {
                let rest = text@.skip(start as int);
                assert forall|j: int| 0 <= j < i - start implies !spec_is_terminator(
                    #[trigger] rest[j],
                ) by {
                    assert(rest[j] == text@[start + j]);
                }
                lemma_first_terminator(rest, i - start);
                assert(rest.take(i - start) == piece@);
                assert(rest.skip(i - start + 1) == text@.skip(i + 1));
                let grown = done.push(piece@);
                assert(spec_pieces(text@) == grown + spec_pieces(text@.skip(i + 1)));
                assert(grown.map_values(trim_of) == done.map_values(trim_of).push(unit@));
                done.map_values(trim_of).lemma_filter_push(unit@, kept);
                done = grown;
            }
            if unit.len() > 0 {
                let ghost before = units.deep_view();
                units.push(string_of(&unit));
                assert(units.deep_view() == before.push(unit@));
            }
            piece = Vec::new();
            start = i + 1;
        } else {
            piece.push(c);
        }
        i += 1;
    }
    let unit = trim(&piece);
    proof {
        let rest = text@.skip(start as int);
        assert forall|j: int| 0 <= j < n - start implies !spec_is_terminator(#[trigger] rest[j]) by {
            assert(rest[j] == text@[start + j]);
        }
        lemma_first_terminator(rest, n - start);
        assert(rest == piece@);
        let grown = done.push(piece@);
        assert(spec_pieces(text@) == grown);
        assert(grown.map_values(trim_of) == done.map_values(trim_of).push(unit@));
        done.map_values(trim_of).lemma_filter_push(unit@, kept);
    }
    if unit.len() > 0 {
        let ghost before = units.deep_view();
        units.push(string_of(&unit));
        assert(units.deep_view() == before.push(unit@));
    }
    units
}

/// `len` samples of the value `zero`.
pub open spec fn spec_silence<T>(zero: T, len: nat) -> Seq<T> {
    Seq::new(len, |i: int| zero)
}

/// A buffer of `len` samples of the value `zero`.
pub fn silence<T: Copy>(zero: T, len: usize) -> (samples: Vec<T>)
    ensures
        samples@ == spec_silence(zero, len as nat),
{
    let mut samples: Vec<T> = Vec::new();
    let mut i: usize = 0;
    while i < len
        invariant
            i <= len,
            samples@ == spec_silence(zero, i as nat),
        decreases len - i,
    {
        samples.push(zero);
        assert(samples@ =~= spec_silence(zero, (i + 1) as nat));
        i += 1;
    }
    samples
}

/// Appends the samples of `more` to `samples`.
pub fn extend<T: Copy>(samples: &mut Vec<T>, more: &Vec<T>)
    ensures
        final(samples)@ == old(samples)@ + more@,
{
    let mut i: usize = 0;
    while i < more.len()
        invariant
            i <= more.len(),
            samples@ == old(samples)@ + more@.take(i as int),
        decreases more.len() - i,
    {
        samples.push(more[i]);
        i += 1;
    }
    assert(more@.take(more.len() as int) == more@);
}

/// The segments in their order, with `gap` between each two neighbours: nothing before the
/// first and nothing after the last.
pub open spec fn spec_join<T>(segments: Seq<Seq<T>>, gap: Seq<T>) -> Seq<T>
    decreases segments.len(),
{
    if segments.len() == 0 {
        Seq::empty()
    } else if segments.len() == 1 {
        segments[0]
    } else {
        spec_join(segments.drop_last(), gap) + gap + segments.last()
    }
}

/// The number of samples in all of `segments` together.
pub open spec fn spec_total_len<T>(segments: Seq<Seq<T>>) -> nat
    decreases segments.len(),
{
    if segments.len() == 0 {
        0
    } else {
        spec_total_len(segments.drop_last()) + segments.last().len()
    }
}

/// Joined segments are as long as the segments together and one gap fewer than there are
/// segments.
pub proof fn lemma_join_len<T>(segments: Seq<Seq<T>>, gap: Seq<T>)
    requires
        segments.len() > 0,
    ensures
        spec_join(segments, gap).len() == spec_total_len(segments) + (segments.len() - 1)
            * gap.len(),
    decreases segments.len(),
{
    if segments.len() == 1 {
        assert(segments.drop_last().len() == 0);
        assert(spec_total_len(segments) == segments[0].len()) by {
            reveal_with_fuel(spec_total_len, 2);
        }
    } else {
        lemma_join_len(segments.drop_last(), gap);
        assert((segments.len() - 1) * gap.len() == (segments.len() - 2) * gap.len() + gap.len())
            by (nonlinear_arith);
    }
}

/// Joining keeps every segment whole and in its place: segment `k` stands in the result right
/// after the `k` segments and `k` gaps before it.
pub proof fn lemma_join_keeps_order<T>(segments: Seq<Seq<T>>, gap: Seq<T>, k: int)
    requires
        0 <= k < segments.len(),
    ensures
        ({
            let at = spec_total_len(segments.take(k)) + k * gap.len();
            &&& at + segments[k].len() <= spec_join(segments, gap).len()
            &&& spec_join(segments, gap).subrange(at, at + segments[k].len()) == segments[k]
        }),
    decreases segments.len(),
{
    let n = segments.len() as int;
    let joined = spec_join(segments, gap);
    let at = spec_total_len(segments.take(k)) + k * gap.len();
    if n == 1 {
        assert(segments.take(0).len() == 0);
        assert(k * gap.len() == 0) by (nonlinear_arith)
            requires
                k == 0,
        ;
        assert(joined.subrange(0, segments[0].len() as int) == segments[0]);
    } else if k == n - 1 {
        let shorter = spec_join(segments.drop_last(), gap);
        lemma_join_len(segments.drop_last(), gap);
        assert(segments.take(k) == segments.drop_last());
        assert((n - 2) * gap.len() + gap.len() == k * gap.len()) by (nonlinear_arith)
            requires
                k == n - 1,
        ;
        assert(at == shorter.len() + gap.len());
        assert(joined == shorter + gap + segments.last());
        assert(joined.subrange(at, at + segments[k].len()) == segments[k]);
    } else {
        let shorter = spec_join(segments.drop_last(), gap);
        lemma_join_keeps_order(segments.drop_last(), gap, k);
        assert(segments.drop_last().take(k) == segments.take(k));
        assert(segments.drop_last()[k] == segments[k]);
        assert(joined == shorter + gap + segments.last());
        assert(joined.subrange(at, at + segments[k].len()) == shorter.subrange(
            at,
            at + segments[k].len(),
        ));
    }
}

} // verus!
