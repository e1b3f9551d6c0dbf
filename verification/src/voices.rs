//! The voice style store: the layout of a voice file, the voice index, and the voices by
//! name. Style vectors are held as the bit patterns of their components.

use crate::text::str_eq;
use vstd::prelude::*;

verus! {

/// The number of components of a style vector.
pub const STYLE_DIM: usize = 256;

/// The greatest number of style vectors that are read for one voice.
pub const MAX_STYLE_VECTORS: usize = 510;

/// The 32-bit word that stands in `bytes` at position `at`, least significant byte first.
pub open spec fn spec_le_word(bytes: Seq<u8>, at: int) -> u32 {
    (bytes[at] as int + 0x100 * bytes[at + 1] as int + 0x1_0000 * bytes[at + 2] as int
        + 0x100_0000 * bytes[at + 3] as int) as u32
}

/// The number of whole style vectors that a voice file holds, up to `MAX_STYLE_VECTORS`.
pub open spec fn spec_vector_count(bytes: Seq<u8>) -> nat {
    if bytes.len() / (4 * STYLE_DIM as nat) < MAX_STYLE_VECTORS {
        bytes.len() / (4 * STYLE_DIM as nat)
    } else {
        MAX_STYLE_VECTORS as nat
    }
}

/// The style vectors of a voice file. The file is a row of little-endian 32-bit words, the
/// bit patterns of its numbers; each run of `STYLE_DIM` words is one vector. Words that do not
/// fill a vector, and vectors after the first `MAX_STYLE_VECTORS`, are left out.
pub open spec fn spec_voice_vectors(bytes: Seq<u8>) -> Seq<Seq<u32>> {
    Seq::new(
        spec_vector_count(bytes),
        |i: int| Seq::new(STYLE_DIM as nat, |j: int| spec_le_word(bytes, 4 * (STYLE_DIM * i + j))),
    )
}

/// Whether `vectors` has the shape of a voice: at most `MAX_STYLE_VECTORS` vectors, each of
/// `STYLE_DIM` components.
pub open spec fn spec_well_shaped(vectors: Seq<Seq<u32>>) -> bool {
    &&& vectors.len() <= MAX_STYLE_VECTORS
    &&& forall|i: int| 0 <= i < vectors.len() ==> (#[trigger] vectors[i]).len() == STYLE_DIM
}

/// The style vector that conditions synthesis with a voice: its first vector, or all zeros
/// where the voice has none.
pub open spec fn spec_style(vectors: Seq<Seq<u32>>) -> Seq<u32> {
    if vectors.len() > 0 {
        vectors[0]
    } else {
        Seq::new(STYLE_DIM as nat, |j: int| 0u32)
    }
}

/// The 32-bit word that stands in `bytes` at position `at`.
fn le_word(bytes: &[u8], at: usize) -> (word: u32)
    requires
        at + 4 <= bytes.len(),
    ensures
        word == spec_le_word(bytes@, at as int),
{
    let b0: u32 = bytes[at] as u32;
    let b1: u32 = bytes[at + 1] as u32;
    let b2: u32 = bytes[at + 2] as u32;
    let b3: u32 = bytes[at + 3] as u32;
    b0 + 0x100 * b1 + 0x1_0000 * b2 + 0x100_0000 * b3
}

/// The style vectors held by the content of a voice file.
pub fn load_voice_file(bytes: &[u8]) -> (vectors: Vec<Vec<u32>>)
    ensures
        vectors.deep_view() == spec_voice_vectors(bytes@),
        spec_well_shaped(vectors.deep_view()),
{
    let whole = bytes.len() / (4 * STYLE_DIM);
    let count = if whole < MAX_STYLE_VECTORS {
        whole
    } else {
        MAX_STYLE_VECTORS
    };
    let mut vectors: Vec<Vec<u32>> = Vec::new();
    let mut i: usize = 0;
    while i < count
        invariant
            i <= count,
            count == spec_vector_count(bytes@),
            count * (4 * STYLE_DIM) <= bytes.len(),
            vectors.len() == i,
            forall|k: int| 0 <= k < i ==> (#[trigger] vectors[k])@ == spec_voice_vectors(bytes@)[k],
        decreases count - i,
    {
        let mut vector: Vec<u32> = Vec::new();
        let mut j: usize = 0;
        while j < STYLE_DIM
            invariant
                j <= STYLE_DIM,
                i < count,
                count <= MAX_STYLE_VECTORS,
                count * (4 * STYLE_DIM) <= bytes.len(),
                vector.len() == j,
                forall|m: int|
                    0 <= m < j ==> #[trigger] vector[m] == spec_le_word(
                        bytes@,
                        4 * (STYLE_DIM * i + m),
                    ),
            decreases STYLE_DIM - j,
        {
            assert(4 * (STYLE_DIM * i + j) + 4 <= 4 * STYLE_DIM * (i + 1) <= count * (4 * STYLE_DIM))
                by (nonlinear_arith)
                requires
                    i < count,
                    j < STYLE_DIM,
            ;
            vector.push(le_word(bytes, 4 * (STYLE_DIM * i + j)));
            j += 1;
        }
        assert(vector@ =~= spec_voice_vectors(bytes@)[i as int]);
        vectors.push(vector);
        i += 1;
    }
    assert(vectors.deep_view() =~= spec_voice_vectors(bytes@)) by {
        assert forall|k: int| 0 <= k < vectors.len() implies vectors.deep_view()[k]
            == spec_voice_vectors(bytes@)[k] by {
            assert(vectors[k].deep_view() =~= vectors[k]@);
        }
    }
    vectors
}

/// A voice: its name and its style vectors, as bit patterns.
pub struct VoiceStyle {
    name: String,
    vectors: Vec<Vec<u32>>,
}

impl VoiceStyle {
    /// The vectors have the shape of a voice.
    #[verifier::type_invariant]
    spec fn wf(&self) -> bool {
        spec_well_shaped(self.vectors.deep_view())
    }

    /// The name of the voice.
    pub closed spec fn spec_name(&self) -> Seq<char> {
        self.name@
    }

    /// The style vectors of the voice.
    pub closed spec fn spec_vectors(&self) -> Seq<Seq<u32>> {
        self.vectors.deep_view()
    }

    /// The voice `name` with the style vectors held by the content of its file.
    pub fn new(name: &str, bytes: &[u8]) -> (voice: VoiceStyle)
        ensures
            voice.spec_name() == name@,
            voice.spec_vectors() == spec_voice_vectors(bytes@),
    {
        VoiceStyle { name: name.to_owned(), vectors: load_voice_file(bytes) }
    }

    /// The name of the voice.
    pub fn name(&self) -> (name: &str)
        ensures
            name@ == self.spec_name(),
    {
        self.name.as_str()
    }

    /// The number of style vectors of the voice.
    pub fn len(&self) -> (n: usize)
        ensures
            n == self.spec_vectors().len(),
            n <= MAX_STYLE_VECTORS,
    {
        proof {
            use_type_invariant(self);
        }
        self.vectors.len()
    }

    /// The style vector that conditions synthesis with this voice.
    pub fn style(&self) -> (style: Vec<u32>)
        ensures
            style@ == spec_style(self.spec_vectors()),
            style@.len() == STYLE_DIM,
    {
        proof {
            use_type_invariant(self);
        }
        let mut style: Vec<u32> = Vec::new();
        if self.vectors.len() > 0 {
            let first = &self.vectors[0];
            assert(self.vectors.deep_view()[0] =~= first@);
            let mut j: usize = 0;
            while j < first.len()
                invariant
                    j <= first.len(),
                    style@ == first@.take(j as int),
                decreases first.len() - j,
            {
                style.push(first[j]);
                j += 1;
            }
            assert(first@.take(first.len() as int) == first@);
        } else {
            let mut j: usize = 0;
            while j < STYLE_DIM
                invariant
                    j <= STYLE_DIM,
                    style@ == Seq::new(j as nat, |k: int| 0u32),
                decreases STYLE_DIM - j,
            {
                style.push(0);
                assert(style@ =~= Seq::new((j + 1) as nat, |k: int| 0u32));
                j += 1;
            }
        }
        style
    }
}

/// The map from each voice's name to its style vectors, where a later voice replaces an
/// earlier one of the same name.
pub open spec fn spec_store(voices: Seq<VoiceStyle>) -> Map<Seq<char>, Seq<Seq<u32>>>
    decreases voices.len(),
{
    if voices.len() == 0 {
        Map::empty()
    } else {
        spec_store(voices.drop_last()).insert(
            voices.last().spec_name(),
            voices.last().spec_vectors(),
        )
    }
}

/// Whether no two of `voices` have the same name.
pub open spec fn spec_distinct(voices: Seq<VoiceStyle>) -> bool {
    forall|i: int, j: int|
        0 <= i < j < voices.len() ==> (#[trigger] voices[i]).spec_name() != (
        #[trigger] voices[j]).spec_name()
}

/// A name that no voice has is not in the map.
proof fn lemma_store_absent(voices: Seq<VoiceStyle>, name: Seq<char>)
    requires
        forall|i: int| 0 <= i < voices.len() ==> (#[trigger] voices[i]).spec_name() != name,
    ensures
        !spec_store(voices).contains_key(name),
    decreases voices.len(),
{
    if voices.len() > 0 {
        assert forall|i: int| 0 <= i < voices.drop_last().len() implies (
        #[trigger] voices.drop_last()[i]).spec_name() != name by {
            assert(voices.drop_last()[i] == voices[i]);
        }
        lemma_store_absent(voices.drop_last(), name);
        assert(voices.last() == voices[voices.len() - 1]);
    }
}

/// Each voice is in the map under its name, where no two voices share a name.
proof fn lemma_store_present(voices: Seq<VoiceStyle>, i: int)
    requires
        0 <= i < voices.len(),
        spec_distinct(voices),
    ensures
        spec_store(voices).contains_key(voices[i].spec_name()),
        spec_store(voices)[voices[i].spec_name()] == voices[i].spec_vectors(),
    decreases voices.len(),
{
    if i < voices.len() - 1 {
        assert(voices.drop_last()[i] == voices[i]);
        assert(spec_distinct(voices.drop_last())) by {
            assert forall|a: int, b: int| 0 <= a < b < voices.drop_last().len() implies (
            #[trigger] voices.drop_last()[a]).spec_name() != (
            #[trigger] voices.drop_last()[b]).spec_name() by {
                assert(voices.drop_last()[a] == voices[a]);
                assert(voices.drop_last()[b] == voices[b]);
            }
        }
        lemma_store_present(voices.drop_last(), i);
        assert(voices.last() == voices[voices.len() - 1]);
    }
}

/// Putting a voice in the place of one of the same name is an insertion into the map.
proof fn lemma_store_update(voices: Seq<VoiceStyle>, i: int, voice: VoiceStyle)
    requires
        0 <= i < voices.len(),
        voices[i].spec_name() == voice.spec_name(),
        spec_distinct(voices),
    ensures
        spec_distinct(voices.update(i, voice)),
        spec_store(voices.update(i, voice)) == spec_store(voices).insert(
            voice.spec_name(),
            voice.spec_vectors(),
        ),
    decreases voices.len(),
{
    let updated = voices.update(i, voice);
    assert(spec_distinct(updated)) by {
        assert forall|a: int, b: int| 0 <= a < b < updated.len() implies (
        #[trigger] updated[a]).spec_name() != (#[trigger] updated[b]).spec_name() by {
            assert(voices[a].spec_name() != voices[b].spec_name());
        }
    }
    if i == voices.len() - 1 {
        assert(updated.drop_last() == voices.drop_last());
        assert(spec_store(updated) =~= spec_store(voices).insert(
            voice.spec_name(),
            voice.spec_vectors(),
        ));
    } else {
        assert(spec_distinct(voices.drop_last())) by {
            assert forall|a: int, b: int| 0 <= a < b < voices.drop_last().len() implies (
            #[trigger] voices.drop_last()[a]).spec_name() != (
            #[trigger] voices.drop_last()[b]).spec_name() by {
                assert(voices.drop_last()[a] == voices[a]);
                assert(voices.drop_last()[b] == voices[b]);
            }
        }
        assert(voices.drop_last()[i] == voices[i]);
        lemma_store_update(voices.drop_last(), i, voice);
        assert(updated.drop_last() == voices.drop_last().update(i, voice));
        assert(updated.last() == voices.last());
        assert(voices.last() == voices[voices.len() - 1]);
        assert(voices[i].spec_name() != voices[voices.len() - 1].spec_name());
        assert(spec_store(updated) =~= spec_store(voices).insert(
            voice.spec_name(),
            voice.spec_vectors(),
        ));
    }
}

/// The map holds as many names as there are voices, where no two voices share a name.
proof fn lemma_store_len(voices: Seq<VoiceStyle>)
    requires
        spec_distinct(voices),
    ensures
        spec_store(voices).dom().finite(),
        spec_store(voices).dom().len() == voices.len(),
    decreases voices.len(),
{
    if voices.len() > 0 {
        assert forall|a: int, b: int| 0 <= a < b < voices.drop_last().len() implies (
        #[trigger] voices.drop_last()[a]).spec_name() != (
        #[trigger] voices.drop_last()[b]).spec_name() by {
            assert(voices.drop_last()[a] == voices[a]);
            assert(voices.drop_last()[b] == voices[b]);
        }
        lemma_store_len(voices.drop_last());
        assert forall|i: int| 0 <= i < voices.drop_last().len() implies (
        #[trigger] voices.drop_last()[i]).spec_name() != voices.last().spec_name() by {
            assert(voices.drop_last()[i] == voices[i]);
            assert(voices.last() == voices[voices.len() - 1]);
        }
        lemma_store_absent(voices.drop_last(), voices.last().spec_name());
    }
}

/// The voices known to the engine, by name.
pub struct VoiceStore {
    voices: Vec<VoiceStyle>,
}

impl View for VoiceStore {
    type V = Map<Seq<char>, Seq<Seq<u32>>>;

    closed spec fn view(&self) -> Map<Seq<char>, Seq<Seq<u32>>> {
        spec_store(self.voices@)
    }
}

impl VoiceStore {
    /// No two voices share a name.
    #[verifier::type_invariant]
    spec fn wf(&self) -> bool {
        spec_distinct(self.voices@)
    }

    /// A store without voices.
    pub fn new() -> (store: VoiceStore)
        ensures
            store@ == Map::<Seq<char>, Seq<Seq<u32>>>::empty(),
    {
        VoiceStore { voices: Vec::new() }
    }

    /// The position of the voice `name` among the stored voices.
    fn position(&self, name: &str) -> (found: Option<usize>)
        ensures
            match found {
                Some(i) => i < self.voices.len() && self.voices[i as int].spec_name() == name@,
                None => forall|i: int|
                    0 <= i < self.voices.len() ==> (#[trigger] self.voices[i]).spec_name()
                        != name@,
            },
    {
        let mut i: usize = 0;
        while i < self.voices.len()
            invariant
                i <= self.voices.len(),
                forall|k: int| 0 <= k < i ==> (#[trigger] self.voices[k]).spec_name() != name@,
            decreases self.voices.len() - i,
        {
            if str_eq(self.voices[i].name(), name) {
                return Some(i);
            }
            i += 1;
        }
        None
    }

    /// Stores `voice` under its name, in place of an earlier voice of that name if there is
    /// one.
    pub fn insert(&mut self, voice: VoiceStyle)
        ensures
            final(self)@ == old(self)@.insert(voice.spec_name(), voice.spec_vectors()),
    {
        proof {
            use_type_invariant(&*self);
        }
        let found = self.position(voice.name());
        let mut voices: Vec<VoiceStyle> = Vec::new();
        core::mem::swap(&mut self.voices, &mut voices);
        match found {
            Some(i) => {
                proof {
                    lemma_store_update(voices@, i as int, voice);
                }
                voices.set(i, voice);
            },
            None => {
                proof {
                    let grown = voices@.push(voice);
                    assert(grown.drop_last() == voices@);
                    assert(grown.last() == voice);
                    assert forall|a: int, b: int| 0 <= a < b < grown.len() implies (
                    #[trigger] grown[a]).spec_name() != (#[trigger] grown[b]).spec_name() by {
                        if b < voices@.len() {
                            assert(voices@[a].spec_name() != voices@[b].spec_name());
                        }
                    }
                }
                voices.push(voice);
            },
        }
        self.voices = voices;
    }

    /// The voice stored under `name`, if there is one.
    pub fn get(&self, name: &str) -> (found: Option<&VoiceStyle>)
        ensures
            match found {
                Some(voice) => self@.contains_key(name@) && voice.spec_name() == name@
                    && voice.spec_vectors() == self@[name@],
                None => !self@.contains_key(name@),
            },
    {
        proof {
            use_type_invariant(self);
        }
        match self.position(name) {
            Some(i) => {
                proof {
                    lemma_store_present(self.voices@, i as int);
                }
                Some(&self.voices[i])
            },
            None => {
                proof {
                    lemma_store_absent(self.voices@, name@);
                }
                None
            },
        }
    }

    /// The number of voices in the store.
    pub fn len(&self) -> (n: usize)
        ensures
            self@.dom().finite(),
            n == self@.dom().len(),
    {
        proof {
            use_type_invariant(self);
            lemma_store_len(self.voices@);
        }
        self.voices.len()
    }
}

/// One entry of a voice index: a voice and the file that holds its style vectors.
#[derive(Debug, PartialEq, Eq)]
pub struct VoiceFile {
    /// The name of the voice.
    pub name: String,
    /// The name of the voice's file, relative to the directory of the index.
    pub file: String,
}

/// Why a voice index cannot be used.
#[derive(Debug, PartialEq, Eq)]
pub enum IndexError {
    /// The text is not JSON.
    Syntax,
    /// The text is JSON, but not an object.
    NotAnObject,
    /// The member `voice` of the object has no string under `FILE_KEY`.
    MissingFile { voice: String },
}

/// `serde_json::Error`, the error of `serde_json::from_str`, carried without a look inside.
#[verifier::external_type_specification]
#[verifier::external_body]
pub struct ExJsonError(serde_json::Error);

/// The key under which a member of a voice index names its file.
pub const FILE_KEY: &'static str = "file";

/// What `serde_json` reads from `text`, looked up by `key`. The outer option is none where
/// the text is not JSON, the inner one where the JSON value is not an object. Otherwise the
/// sequence holds, for each member of the object in the order in which `serde_json` walks
/// them, the member's key and, if the member's value is an object with a string under `key`,
/// that string.
pub uninterp spec fn json_voice_index(text: Seq<char>, key: Seq<char>) -> Option<
    Option<Seq<(Seq<char>, Option<Seq<char>>)>>,
>;

/// Calls `serde_json::from_str` on `json` for a `serde_json::Value` and hands out, for an
/// object, each member's key with the string under `key` in the member's value. Not proved:
/// that the result is what `json_voice_index` names, which takes the parse to depend on the
/// text and the key alone.
#[verifier::external_body]
fn read_voice_index(json: &str, key: &str) -> (read: Result<
    Option<Vec<(String, Option<String>)>>,
    serde_json::Error,
>)
    ensures
        match read {
            Ok(document) => json_voice_index(json@, key@) == Some(document.deep_view()),
            Err(_) => json_voice_index(json@, key@) is None,
        },
{
    let value: serde_json::Value = serde_json::from_str(json)?;
    Ok(
        value.as_object().map(
            |members|
                members.iter().map(
                    |(name, info)| (name.clone(), info[key].as_str().map(str::to_owned)),
                ).collect(),
        ),
    )
}

/// The position of the first member without a file, if there is one.
pub open spec fn spec_first_missing(members: Seq<(Seq<char>, Option<Seq<char>>)>) -> Option<int>
    decreases members.len(),
{
    if members.len() == 0 {
        None
    } else if members[0].1 is None {
        Some(0)
    } else {
        match spec_first_missing(members.skip(1)) {
            Some(i) => Some(i + 1),
            None => None,
        }
    }
}

/// Whether `entries` is what a voice index of the shape `document` yields. A value that is
/// not an object is refused, and so is an object with a member that names no file: the first
/// such member is reported. Otherwise there is one entry for each member, in the same order.
pub open spec fn spec_index_entries(
    document: Option<Seq<(Seq<char>, Option<Seq<char>>)>>,
    entries: Result<Vec<VoiceFile>, IndexError>,
) -> bool {
    match document {
        None => entries == Err::<Vec<VoiceFile>, IndexError>(IndexError::NotAnObject),
        Some(members) => match spec_first_missing(members) {
            Some(i) => (entries matches Err(IndexError::MissingFile { voice }) && voice@
                == members[i].0),
            None => (entries matches Ok(files) && files.len() == members.len() && forall|k: int|
                0 <= k < files.len() ==> (#[trigger] files[k]).name@ == members[k].0 && Some(
                    files[k].file@,
                ) == members[k].1),
        },
    }
}

/// Where every member before position `k` names a file, the first member without one is
/// at `k` if that member names none, and there is no such member if `k` is the length.
proof fn lemma_first_missing(members: Seq<(Seq<char>, Option<Seq<char>>)>, k: int)
    requires
        0 <= k <= members.len(),
        forall|j: int| 0 <= j < k ==> (#[trigger] members[j]).1 is Some,
        k < members.len() ==> members[k].1 is None,
    ensures
        spec_first_missing(members) == if k < members.len() {
            Some(k)
        } else {
            None
        },
    decreases k,
{
    if k > 0 {
        assert(members[0].1 is Some);
        assert forall|j: int| 0 <= j < k - 1 implies (#[trigger] members.skip(1)[j]).1 is Some by {
            assert(members.skip(1)[j] == members[j + 1]);
        }
        lemma_first_missing(members.skip(1), k - 1);
    }
}

/// The entries of a voice index whose JSON has been read as `document`: none where the
/// value is not an object, else each member's key with the file that the member names.
pub fn index_entries(document: Option<Vec<(String, Option<String>)>>) -> (entries: Result<
    Vec<VoiceFile>,
    IndexError,
>)
    ensures
        spec_index_entries(document.deep_view(), entries),
{
    let members = match document {
        Some(members) => members,
        None => {
            return Err(IndexError::NotAnObject);
        },
    };
    let ghost view = members.deep_view();
    let mut files: Vec<VoiceFile> = Vec::new();
    let mut k: usize = 0;
    while k < members.len()
        invariant
            k <= members.len(),
            view == members.deep_view(),
            document.deep_view() == Some(view),
            files.len() == k,
            forall|j: int| 0 <= j < k ==> (#[trigger] view[j]).1 is Some,
            forall|j: int|
                0 <= j < k ==> (#[trigger] files[j]).name@ == view[j].0 && Some(files[j].file@)
                    == view[j].1,
        decreases members.len() - k,
    {
        let member = &members[k];
        assert(member.deep_view() == view[k as int]);
        match &member.1 {
            Some(file) => {
                files.push(VoiceFile { name: member.0.clone(), file: file.clone() });
            },
            None => {
                proof {
                    lemma_first_missing(view, k as int);
                }
                return Err(IndexError::MissingFile { voice: member.0.clone() });
            },
        }
        k += 1;
    }
    proof {
        lemma_first_missing(view, k as int);
    }
    Ok(files)
}

/// The entries of the voice index written in `json`: each voice with the name of its file,
/// which stands under `FILE_KEY`. Text that is not JSON is refused; the rest is as
/// `index_entries` says of what was read.
pub fn parse_voice_index(json: &str) -> (entries: Result<Vec<VoiceFile>, IndexError>)
    ensures
        match json_voice_index(json@, FILE_KEY@) {
            Some(document) => spec_index_entries(document, entries),
            None => entries == Err::<Vec<VoiceFile>, IndexError>(IndexError::Syntax),
        },
{
    match read_voice_index(json, FILE_KEY) {
        Ok(document) => index_entries(document),
        Err(_) => Err(IndexError::Syntax),
    }
}

} // verus!
