//! The symbol table of the model and the tokenizer over it.

use crate::text::chars_of;
use std::collections::HashMap;
use vstd::prelude::*;

verus! {

/// The symbol that pads a token sequence.
pub const PAD: &'static str = "$";

/// The punctuation marks of the vocabulary.
pub const PUNCTUATION: &'static str = ";:,.!?¡¿—…\"«»\"\" ";

/// The Latin letters of the vocabulary.
pub const LETTERS: &'static str = "ABCDEFGHIJKLMNOPQRSTUVWXYZabcdefghijklmnopqrstuvwxyz";

/// The phonetic symbols of the vocabulary.
pub const LETTERS_IPA: &'static str =
    "ɑɐɒæɓʙβɔɕçɗɖðʤəɘɚɛɜɝɞɟʄɡɠɢʛɦɧħɥʜɨɪʝɭɬɫɮʟɱɯɰŋɳɲɴøɵɸθœɶʘɹɺɾɻʀʁɽʂʃʈʧʉʊʋⱱʌɣɤʍχʎʏʑʐʒʔʡʕʢǀǁǂǃˈˌːˑʼʴʰʱʲʷˠˤ˞↓↑→↗↘'̩'ᵻ";

/// The symbol table: the pad symbol, the punctuation, the letters and the phonetic symbols,
/// in this order.
pub open spec fn symbols() -> Seq<char> {
    PAD@ + PUNCTUATION@ + LETTERS@ + LETTERS_IPA@
}

/// The last position at which `c` stands in `table`, if it stands there at all.
pub open spec fn spec_last_position(table: Seq<char>, c: char) -> Option<int>
    decreases table.len(),
{
    if table.len() == 0 {
        None
    } else if table.last() == c {
        Some(table.len() - 1)
    } else {
        spec_last_position(table.drop_last(), c)
    }
}

/// The token of the character `c`: its last position in the symbol table. A character that
/// is not in the table has no token.
pub open spec fn spec_token(c: char) -> Option<i64> {
    match spec_last_position(symbols(), c) {
        Some(position) => Some(position as i64),
        None => None,
    }
}

/// The tokens of a phoneme string: those of its characters that have one, in order.
pub open spec fn spec_tokenize(phonemes: Seq<char>) -> Seq<i64> {
    phonemes.filter_map(|c: char| spec_token(c))
}

/// The characters of `chars` that are in the symbol table, in order.
pub open spec fn spec_retain_symbols(chars: Seq<char>) -> Seq<char> {
    chars.filter(|c: char| spec_token(c) is Some)
}

/// The map from each character's code to its last position in `table`.
spec fn spec_table(table: Seq<char>) -> Map<u32, usize>
    decreases table.len(),
{
    if table.len() == 0 {
        Map::empty()
    } else {
        spec_table(table.drop_last()).insert(table.last() as u32, (table.len() - 1) as usize)
    }
}

/// A position that `spec_last_position` gives is one at which the character stands.
pub proof fn lemma_last_position(table: Seq<char>, c: char)
    ensures
        match spec_last_position(table, c) {
            Some(position) => 0 <= position < table.len() && table[position] == c && forall|
                j: int,
            |
                position < j < table.len() ==> table[j] != c,
            None => !table.contains(c),
        },
    decreases table.len(),
{
    if table.len() > 0 && table.last() != c {
        lemma_last_position(table.drop_last(), c);
        if spec_last_position(table, c) is None {
            assert forall|j: int| 0 <= j < table.len() implies table[j] != c by {
                if j < table.len() - 1 {
                    assert(table.drop_last()[j] == table[j]);
                    assert(table.drop_last().contains(table[j]));
                }
            }
        } else {
            let position = spec_last_position(table, c)->0;
            assert(table.drop_last()[position] == table[position]);
            assert forall|j: int| position < j < table.len() implies table[j] != c by {
                if j < table.len() - 1 {
                    assert(table.drop_last()[j] == table[j]);
                }
            }
        }
    }
}

/// The table maps the code of a character to its last position, and holds no code of a
/// character without a position.
proof fn lemma_table(table: Seq<char>, c: char)
    requires
        table.len() <= usize::MAX,
    ensures
        match spec_last_position(table, c) {
            Some(position) => spec_table(table).contains_key(c as u32) && spec_table(
                table,
            )[c as u32] == position,
            None => !spec_table(table).contains_key(c as u32),
        },
    decreases table.len(),
{
    if table.len() > 0 {
        lemma_table(table.drop_last(), c);
        if table.last() as u32 == c as u32 {
            vstd::utf8::char_u32_cast(table.last(), c as u32);
            vstd::utf8::char_u32_cast(c, c as u32);
        }
    }
}

/// The codes in the table of `table` stand one for one for the characters that have a
/// position in it.
proof fn lemma_table_domain(table: Seq<char>)
    requires
        table.len() <= usize::MAX,
    ensures
        spec_table(table).dom().finite(),
        Set::new(|c: char| spec_last_position(table, c) is Some).finite(),
        spec_table(table).dom().len() == Set::new(
            |c: char| spec_last_position(table, c) is Some,
        ).len(),
    decreases table.len(),
{
    let chars = Set::new(|c: char| spec_last_position(table, c) is Some);
    if table.len() == 0 {
        assert(chars =~= Set::<char>::empty());
        assert(spec_table(table).dom() =~= Set::<u32>::empty());
    } else {
        let shorter = table.drop_last();
        let before = Set::new(|c: char| spec_last_position(shorter, c) is Some);
        lemma_table_domain(shorter);
        let last = table.last();
        assert(chars =~= before.insert(last));
        assert(spec_table(table).dom() =~= spec_table(shorter).dom().insert(last as u32));
        lemma_table(shorter, last);
    }
}

/// Adds the characters of `part` to the table, each under the position that it has after the
/// `before.len()` symbols entered so far.
fn add_symbols(
    ids: &mut HashMap<u32, usize>,
    part: &str,
    entered: usize,
    Ghost(before): Ghost<Seq<char>>,
) -> (total: usize)
    requires
        old(ids)@ == spec_table(before),
        entered == before.len(),
        before.len() + part@.len() <= usize::MAX,
    ensures
        final(ids)@ == spec_table(before + part@),
        total == before.len() + part@.len(),
{
    broadcast use vstd::std_specs::hash::group_hash_axioms;

    let chars = chars_of(part);
    let mut i: usize = 0;
    assert(before + part@.take(0) == before);
    while i < chars.len()
        invariant
            i <= chars.len(),
            chars@ == part@,
            entered == before.len(),
            before.len() + part@.len() <= usize::MAX,
            ids@ == spec_table(before + part@.take(i as int)),
        decreases chars.len() - i,
    {
        let position = entered + i;
        proof {
            let grown = before + part@.take(i + 1);
            assert(grown.drop_last() == before + part@.take(i as int));
            assert(grown.last() == part@[i as int]);
        }
        ids.insert(chars[i] as u32, position);
        i += 1;
    }
    assert(part@.take(chars.len() as int) == part@);
    entered + i
}

/// The number of positions in the symbol table.
pub const SYMBOL_COUNT: usize = 178;

/// The number of characters in the vocabulary: two positions of the table repeat the
/// quotation mark and one the apostrophe.
pub const VOCAB_SIZE: usize = 175;

/// The token of the pad symbol.
pub const PAD_TOKEN: i64 = 0;

/// The symbol table has `SYMBOL_COUNT` positions, and the pad symbol stands at the first.
pub proof fn lemma_symbols_len()
    ensures
        symbols().len() == SYMBOL_COUNT,
        symbols()[0] == '$',
        PAD@.len() == 1,
        PUNCTUATION@.len() == 16,
        LETTERS@.len() == 52,
        LETTERS_IPA@.len() == 109,
{
    reveal_strlit("$");
    reveal_strlit(";:,.!?¡¿—…\"«»\"\" ");
    reveal_strlit("ABCDEFGHIJKLMNOPQRSTUVWXYZabcdefghijklmnopqrstuvwxyz");
    reveal_strlit(
        "ɑɐɒæɓʙβɔɕçɗɖðʤəɘɚɛɜɝɞɟʄɡɠɢʛɦɧħɥʜɨɪʝɭɬɫɮʟɱɯɰŋɳɲɴøɵɸθœɶʘɹɺɾɻʀʁɽʂʃʈʧʉʊʋⱱʌɣɤʍχʎʏʑʐʒʔʡʕʢǀǁǂǃˈˌːˑʼʴʰʱʲʷˠˤ˞↓↑→↗↘'̩'ᵻ",
    );
}

/// The pad symbol has the token `PAD_TOKEN`.
pub proof fn lemma_pad_token()
    ensures
        spec_token('$') == Some(PAD_TOKEN),
{
    lemma_symbols_len();
    lemma_last_position(symbols(), '$');
    reveal_strlit("$");
    reveal_strlit(";:,.!?¡¿—…\"«»\"\" ");
    reveal_strlit("ABCDEFGHIJKLMNOPQRSTUVWXYZabcdefghijklmnopqrstuvwxyz");
    reveal_strlit(
        "ɑɐɒæɓʙβɔɕçɗɖðʤəɘɚɛɜɝɞɟʄɡɠɢʛɦɧħɥʜɨɪʝɭɬɫɮʟɱɯɰŋɳɲɴøɵɸθœɶʘɹɺɾɻʀʁɽʂʃʈʧʉʊʋⱱʌɣɤʍχʎʏʑʐʒʔʡʕʢǀǁǂǃˈˌːˑʼʴʰʱʲʷˠˤ˞↓↑→↗↘'̩'ᵻ",
    );
    assert forall|j: int| 1 <= j < 178 implies symbols()[j] != '$' by {
        if j < 17 {
            assert(symbols()[j] == PUNCTUATION@[j - 1]);
        } else if j < 69 {
            assert(symbols()[j] == LETTERS@[j - 17]);
        } else {
            assert(symbols()[j] == LETTERS_IPA@[j - 69]);
        }
    }
}

/// Two positions of the symbol table hold the same character only where the table repeats
/// the quotation mark, at 11, 14 and 15, or the apostrophe, at 174 and 176.
pub proof fn lemma_symbols_repeated()
    ensures
        forall|i: int, j: int|
            0 <= i < j < SYMBOL_COUNT && symbols()[i] == symbols()[j] ==> (i == 11 && j == 14)
                || (i == 11 && j == 15) || (i == 14 && j == 15) || (i == 174 && j == 176),
        symbols()[11] == symbols()[15],
        symbols()[14] == symbols()[15],
        symbols()[174] == symbols()[176],
{
    lemma_symbols_len();
    reveal_strlit("$");
    reveal_strlit(";:,.!?¡¿—…\"«»\"\" ");
    reveal_strlit("ABCDEFGHIJKLMNOPQRSTUVWXYZabcdefghijklmnopqrstuvwxyz");
    reveal_strlit(
        "ɑɐɒæɓʙβɔɕçɗɖðʤəɘɚɛɜɝɞɟʄɡɠɢʛɦɧħɥʜɨɪʝɭɬɫɮʟɱɯɰŋɳɲɴøɵɸθœɶʘɹɺɾɻʀʁɽʂʃʈʧʉʊʋⱱʌɣɤʍχʎʏʑʐʒʔʡʕʢǀǁǂǃˈˌːˑʼʴʰʱʲʷˠˤ˞↓↑→↗↘'̩'ᵻ",
    );
    let part = |k: int|
        if k < 1 {
            PAD@[k]
        } else if k < 17 {
            PUNCTUATION@[k - 1]
        } else if k < 69 {
            LETTERS@[k - 17]
        } else {
            LETTERS_IPA@[k - 69]
        };
    assert forall|i: int, j: int| 0 <= i < j < 178 && symbols()[i] == symbols()[j] implies (i == 11
        && j == 14) || (i == 11 && j == 15) || (i == 14 && j == 15) || (i == 174 && j == 176) by {
        assert(symbols()[i] == part(i));
        assert(symbols()[j] == part(j));
    }
    assert(symbols()[11] == part(11) && symbols()[14] == part(14) && symbols()[15] == part(15));
    assert(symbols()[174] == part(174) && symbols()[176] == part(176));
}

/// The vocabulary holds `VOCAB_SIZE` characters.
pub proof fn lemma_vocab_size()
    ensures
        spec_vocab().dom().finite(),
        spec_vocab().dom().len() == VOCAB_SIZE,
{
    lemma_symbols_len();
    lemma_symbols_repeated();
    // The symbol table without the earlier of two equal characters.
    let place = |i: int|
        if i < 11 {
            i
        } else if i < 13 {
            i + 1
        } else if i < 172 {
            i + 2
        } else {
            i + 3
        };
    let distinct = Seq::new(VOCAB_SIZE as nat, |i: int| symbols()[place(i)]);
    assert(distinct.no_duplicates()) by {
        assert forall|i: int, j: int| 0 <= i < distinct.len() && 0 <= j < distinct.len() && i
            != j implies distinct[i] != distinct[j] by {
            assert(distinct[i] == symbols()[place(i)] && distinct[j] == symbols()[place(j)]);
        }
    }
    distinct.unique_seq_to_set();
    assert(spec_vocab().dom() =~= distinct.to_set()) by {
        assert forall|c: char| spec_vocab().dom().contains(c) implies distinct.to_set().contains(
            c,
        ) by {
            lemma_last_position(symbols(), c);
            let position = spec_last_position(symbols(), c)->0;
            let i = if position < 11 {
                position
            } else if position < 14 {
                position - 1
            } else if position < 174 {
                position - 2
            } else {
                position - 3
            };
            assert(place(i) == position);
            assert(distinct[i] == c);
        }
        assert forall|c: char| distinct.to_set().contains(c) implies spec_vocab().dom().contains(
            c,
        ) by {
            let i = choose|i: int| 0 <= i < distinct.len() && distinct[i] == c;
            assert(symbols()[place(i)] == c);
            assert(symbols().contains(c));
            lemma_last_position(symbols(), c);
        }
    }
}

/// The pad symbol alone has one token, the pad token.
pub proof fn lemma_pad_alone()
    ensures
        spec_tokenize(PAD@) == seq![PAD_TOKEN],
{
    reveal_strlit("$");
    assert(PAD@ =~= seq!['$']);
    lemma_pad_token();
    lemma_single_symbol('$');
}

/// Every token is a position of the symbol table.
pub proof fn lemma_token_in_range(c: char)
    ensures
        spec_token(c) matches Some(token) ==> 0 <= token < SYMBOL_COUNT && symbols()[token as int]
            == c,
{
    lemma_symbols_len();
    lemma_last_position(symbols(), c);
}

/// Every token of a phoneme string is a position of the symbol table, and there are no more
/// tokens than characters.
pub proof fn lemma_tokens_in_range(phonemes: Seq<char>)
    ensures
        spec_tokenize(phonemes).len() <= phonemes.len(),
        forall|i: int|
            0 <= i < spec_tokenize(phonemes).len() ==> 0 <= #[trigger] spec_tokenize(phonemes)[i]
                < SYMBOL_COUNT,
    decreases phonemes.len(),
{
    if phonemes.len() > 0 {
        lemma_tokens_in_range(phonemes.drop_last());
        lemma_token_in_range(phonemes.last());
    }
}

/// A phoneme string none of whose characters is in the symbol table has no tokens.
pub proof fn lemma_unknown_characters_yield_nothing(phonemes: Seq<char>)
    requires
        forall|i: int| 0 <= i < phonemes.len() ==> spec_token(#[trigger] phonemes[i]) is None,
    ensures
        spec_tokenize(phonemes).len() == 0,
    decreases phonemes.len(),
{
    if phonemes.len() > 0 {
        assert forall|i: int| 0 <= i < phonemes.drop_last().len() implies spec_token(
            #[trigger] phonemes.drop_last()[i],
        ) is None by {
            assert(phonemes.drop_last()[i] == phonemes[i]);
        }
        lemma_unknown_characters_yield_nothing(phonemes.drop_last());
    }
}

/// A single character of the symbol table has exactly one token.
pub proof fn lemma_single_symbol(c: char)
    requires
        spec_token(c) is Some,
    ensures
        spec_tokenize(seq![c]) == seq![spec_token(c)->0],
{
    Seq::lemma_filter_map_singleton(c, |c: char| spec_token(c));
}

/// The vocabulary: each character of the symbol table with its token.
pub open spec fn spec_vocab() -> Map<char, i64> {
    Map::new(|c: char| spec_token(c) is Some, |c: char| spec_token(c)->0)
}

/// The symbol table as a lookup structure from a character to its token.
pub struct Vocab {
    ids: HashMap<u32, usize>,
}

/// The map from a character to the token that `ids` holds under the character's code.
spec fn spec_tokens_of(ids: Map<u32, usize>) -> Map<char, i64> {
    Map::new(|c: char| ids.contains_key(c as u32), |c: char| ids[c as u32] as i64)
}

/// The table of the symbols maps each character of the vocabulary to its token, and no
/// other character.
proof fn lemma_table_is_vocab()
    ensures
        spec_tokens_of(spec_table(symbols())) == spec_vocab(),
{
    lemma_symbols_len();
    let held = spec_tokens_of(spec_table(symbols()));
    assert forall|c: char| held.contains_key(c) == spec_vocab().contains_key(c) by {
        lemma_table(symbols(), c);
    }
    assert forall|c: char| held.contains_key(c) implies held[c] == spec_vocab()[c] by {
        lemma_table(symbols(), c);
        lemma_last_position(symbols(), c);
    }
    assert(held =~= spec_vocab());
}

impl View for Vocab {
    type V = Map<char, i64>;

    /// What the table holds: each character whose code is stored, with the token stored
    /// under it.
    closed spec fn view(&self) -> Map<char, i64> {
        spec_tokens_of(self.ids@)
    }
}

impl Vocab {
    /// The map holds the whole symbol table.
    #[verifier::type_invariant]
    spec fn wf(&self) -> bool {
        self.ids@ == spec_table(symbols())
    }

    /// The number of characters in the vocabulary.
    pub fn len(&self) -> (n: usize)
        ensures
            self@ == spec_vocab(),
            self@.dom().finite(),
            n == self@.dom().len(),
            n == VOCAB_SIZE,
    {
        broadcast use vstd::std_specs::hash::group_hash_axioms;

        proof {
            use_type_invariant(self);
            lemma_table_is_vocab();
            lemma_symbols_len();
            lemma_table_domain(symbols());
            assert(self@.dom() =~= Set::new(
                |c: char| spec_last_position(symbols(), c) is Some,
            ));
            lemma_vocab_size();
        }
        self.ids.len()
    }

    /// The token of `c`, if it is in the symbol table.
    pub fn get(&self, c: char) -> (token: Option<i64>)
        ensures
            token == spec_token(c),
    {
        broadcast use vstd::std_specs::hash::group_hash_axioms;

        proof {
            use_type_invariant(self);
            lemma_symbols_len();
            lemma_table(symbols(), c);
            lemma_last_position(symbols(), c);
        }
        let code: u32 = c as u32;
        match self.ids.get(&code) {
            Some(position) => Some(*position as i64),
            None => None,
        }
    }

    /// Whether `c` is in the symbol table.
    pub fn contains_key(&self, c: &char) -> (found: bool)
        ensures
            found == spec_token(*c) is Some,
    {
        self.get(*c).is_some()
    }

    /// The tokens of `phonemes`. A character outside the symbol table is passed over.
    pub fn tokenize(&self, phonemes: &str) -> (tokens: Vec<i64>)
        ensures
            tokens@ == spec_tokenize(phonemes@),
    {
        let chars = chars_of(phonemes);
        let mut tokens: Vec<i64> = Vec::new();
        let mut i: usize = 0;
        while i < chars.len()
            invariant
                i <= chars.len(),
                tokens@ == spec_tokenize(chars@.take(i as int)),
            decreases chars.len() - i,
        {
            proof {
                chars@.lemma_filter_map_take_succ(|c: char| spec_token(c), i as int);
            }
            match self.get(chars[i]) {
                Some(token) => {
                    tokens.push(token);
                },
                None => {},
            }
            i += 1;
        }
        assert(chars@.take(chars.len() as int) == chars@);
        tokens
    }

    /// The characters of `chars` that are in the symbol table, in order.
    pub fn retain_symbols(&self, chars: &Vec<char>) -> (kept: Vec<char>)
        ensures
            kept@ == spec_retain_symbols(chars@),
    {
        let mut kept: Vec<char> = Vec::new();
        let mut i: usize = 0;
        assert(chars@.take(0).filter(|c: char| spec_token(c) is Some) == Seq::<char>::empty()) by {
            reveal(Seq::filter);
        }
        while i < chars.len()
            invariant
                i <= chars.len(),
                kept@ == spec_retain_symbols(chars@.take(i as int)),
            decreases chars.len() - i,
        {
            proof {
                assert(chars@.take(i + 1) == chars@.take(i as int).push(chars@[i as int]));
                chars@.take(i as int).lemma_filter_push(
                    chars@[i as int],
                    |c: char| spec_token(c) is Some,
                );
            }
            if self.contains_key(&chars[i]) {
                kept.push(chars[i]);
            }
            i += 1;
        }
        assert(chars@.take(chars.len() as int) == chars@);
        kept
    }
}

/// Builds the symbol table: the table returned holds each character of the vocabulary with
/// its token, the last position of the character among the symbols, and nothing else.
pub fn build_vocab() -> (vocab: Vocab)
    ensures
        vocab@ == spec_vocab(),
{
    proof {
        lemma_symbols_len();
        lemma_table_is_vocab();
    }
    let mut ids: HashMap<u32, usize> = HashMap::new();
    let ghost mut entered: Seq<char> = Seq::empty();
    assert(ids@ == spec_table(entered)) by {
        broadcast use vstd::std_specs::hash::group_hash_axioms;

        assert(ids@ =~= Map::<u32, usize>::empty());
    }
    let n = add_symbols(&mut ids, PAD, 0, Ghost(entered));
    proof {
        entered = entered + PAD@;
    }
    let n = add_symbols(&mut ids, PUNCTUATION, n, Ghost(entered));
    proof {
        entered = entered + PUNCTUATION@;
    }
    let n = add_symbols(&mut ids, LETTERS, n, Ghost(entered));
    proof {
        entered = entered + LETTERS@;
    }
    let n = add_symbols(&mut ids, LETTERS_IPA, n, Ghost(entered));
    proof {
        entered = entered + LETTERS_IPA@;
        assert(entered =~= symbols());
    }
    Vocab { ids }
}

/// The tokens of `phonemes`: for each character that is in the symbol table, in order, its
/// position there. A character outside the table is passed over, so the result may be empty.
/// The table is built anew at each call; a caller with many strings keeps a `Vocab`.
pub fn tokenize(phonemes: &str) -> (tokens: Vec<i64>)
    ensures
        tokens@ == spec_tokenize(phonemes@),
        tokens@.len() <= phonemes@.len(),
        forall|i: int| 0 <= i < tokens@.len() ==> 0 <= #[trigger] tokens@[i] < SYMBOL_COUNT,
{
    proof {
        lemma_tokens_in_range(phonemes@);
    }
    build_vocab().tokenize(phonemes)
}

} // verus!
