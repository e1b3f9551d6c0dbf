//! The content-addressed audio cache: the key of a request, the file of an entry, and what is
//! decided of an entry from its age. Reading and writing the files is left to the caller.

use crate::text::{chars_of, string_of};
use sha2::{Digest, Sha256};
use vstd::prelude::*;
use vstd::utf8::encode_utf8;

verus! {

/// The SHA-256 digest of `message`.
pub uninterp spec fn sha256_digest(message: Seq<u8>) -> Seq<u8>;

/// Calls `Sha256::digest` of the `sha2` crate on `message`. Not proved: that the bytes returned
/// are the SHA-256 digest of the message, and that there are 32 of them.
#[verifier::external_body]
fn sha256(message: &[u8]) -> (digest: Vec<u8>)
    ensures
        digest@ == sha256_digest(message@),
        digest@.len() == 32,
{
    Sha256::digest(message).to_vec()
}

/// The bytes `|voice:` that stand between a text and a voice name in a hashed message.
pub open spec fn voice_separator() -> Seq<u8> {
    seq![0x7cu8, 0x76u8, 0x6fu8, 0x69u8, 0x63u8, 0x65u8, 0x3au8]
}

/// The message that is hashed for a request: the text alone, or the text, the separator and the
/// voice name.
pub open spec fn request_message(text: Seq<u8>, voice: Option<Seq<u8>>) -> Seq<u8> {
    match voice {
        Some(name) => text + voice_separator() + name,
        None => text,
    }
}

/// The lower-case hexadecimal digit for `nibble`, which is below 16.
pub open spec fn spec_hex_digit(nibble: int) -> char {
    if nibble < 10 {
        (0x30 + nibble) as char
    } else {
        (0x61 + nibble - 10) as char
    }
}

/// The sixteen hexadecimal digits that spell the first eight bytes of `digest`, the high half
/// of each byte first.
pub open spec fn spec_id_of_digest(digest: Seq<u8>) -> Seq<char> {
    Seq::new(
        16,
        |i: int|
            if i % 2 == 0 {
                spec_hex_digit(digest[i / 2] as int / 16)
            } else {
                spec_hex_digit(digest[i / 2] as int % 16)
            },
    )
}

/// The view of an optional voice name.
pub open spec fn voice_view(voice: Option<&str>) -> Option<Seq<char>> {
    match voice {
        Some(name) => Some(name@),
        None => None,
    }
}

/// The bytes that are hashed for `text` and `voice`, both in UTF-8.
pub open spec fn spec_request_bytes(text: Seq<char>, voice: Option<Seq<char>>) -> Seq<u8> {
    request_message(
        encode_utf8(text),
        match voice {
            Some(name) => Some(encode_utf8(name)),
            None => None,
        },
    )
}

/// The identifier of the cache entry for `text` spoken by `voice`.
pub open spec fn spec_file_id(text: Seq<char>, voice: Option<Seq<char>>) -> Seq<char> {
    spec_id_of_digest(sha256_digest(spec_request_bytes(text, voice)))
}

/// The lower-case hexadecimal digit for `nibble`.
fn hex_digit(nibble: u8) -> (digit: char)
    requires
        nibble < 16,
    ensures
        digit == spec_hex_digit(nibble as int),
{
    if nibble < 10 {
        (0x30 + nibble) as char
    } else {
        (0x61 + (nibble - 10)) as char
    }
}

/// The identifier spelled by a digest: sixteen lower-case hexadecimal digits for its first
/// eight bytes.
pub fn file_id_of_digest(digest: &[u8]) -> (id: String)
    requires
        digest.len() >= 8,
    ensures
        id@ == spec_id_of_digest(digest@),
{
    let mut id: Vec<char> = Vec::new();
    let mut i: usize = 0;
    while i < 8
        invariant
            i <= 8,
            digest.len() >= 8,
            id@.len() == 2 * i,
            forall|k: int| 0 <= k < 2 * i ==> id@[k] == spec_id_of_digest(digest@)[k],
        decreases 8 - i,
    {
        let byte = digest[i];
        id.push(hex_digit(byte / 16));
        id.push(hex_digit(byte % 16));
        i += 1;
    }
    assert(id@ =~= spec_id_of_digest(digest@));
    string_of(&id)
}

/// The bytes that are hashed for a request.
fn request_bytes(text: &str, voice: Option<&str>) -> (message: Vec<u8>)
    ensures
        message@ == spec_request_bytes(text@, voice_view(voice)),
{
    let mut message: Vec<u8> = Vec::new();
    message.extend_from_slice(text.as_bytes());
    match voice {
        Some(name) => {
            message.push(0x7c);
            message.push(0x76);
            message.push(0x6f);
            message.push(0x69);
            message.push(0x63);
            message.push(0x65);
            message.push(0x3a);
            assert(message@ == encode_utf8(text@) + voice_separator());
            message.extend_from_slice(name.as_bytes());
        },
        None => {},
    }
    message
}

/// What the file system shows of one cache entry.
#[derive(Debug, Clone, Copy, PartialEq, Eq)]
pub enum EntryState {
    /// There is no file for the entry.
    Missing,
    /// There is a file, but its age cannot be told: its metadata cannot be read, or it was
    /// modified after the present moment.
    Unreadable,
    /// There is a file, last modified `age_secs` whole seconds ago.
    Present { age_secs: u64 },
}

/// The outcome of a cache lookup.
#[derive(Debug, PartialEq, Eq)]
pub struct Lookup {
    /// The identifier of the entry, on a hit.
    pub file_id: Option<String>,
    /// Whether the entry's file has outlived the time to live and is to be deleted.
    pub expired: bool,
}

/// Where a synthesized waveform is stored.
#[derive(Debug, PartialEq, Eq)]
pub struct SaveTarget {
    /// The identifier of the entry.
    pub file_id: String,
    /// The path of the entry's file.
    pub path: String,
}

/// What a directory listing shows of one file.
#[derive(Debug, PartialEq, Eq)]
pub struct FileInfo {
    /// The file's name, without its directory.
    pub name: String,
    /// Whole seconds since the file was last modified, where that can be told.
    pub age_secs: Option<u64>,
}

/// The file name of an entry: its identifier and `.wav`.
pub open spec fn spec_entry_name(file_id: Seq<char>) -> Seq<char> {
    file_id + seq!['.', 'w', 'a', 'v']
}

/// The path of an entry: the directory, a `/` unless the directory is empty or ends in one,
/// and the entry's file name.
pub open spec fn spec_entry_path(dir: Seq<char>, file_id: Seq<char>) -> Seq<char> {
    if dir.len() == 0 || dir.last() == '/' {
        dir + spec_entry_name(file_id)
    } else {
        dir + seq!['/'] + spec_entry_name(file_id)
    }
}

/// Whether `name` ends in `.wav`.
pub open spec fn spec_ends_with_wav(name: Seq<char>) -> bool {
    name.len() >= 4 && name.skip(name.len() - 4) == seq!['.', 'w', 'a', 'v']
}

/// Whether `name` has the extension `wav`: it ends in `.wav` after at least one other
/// character.
pub open spec fn spec_has_wav_extension(name: Seq<char>) -> bool {
    name.len() > 4 && spec_ends_with_wav(name)
}

/// Whether a lookup that finds `entry` is a hit under a time to live of `ttl` seconds.
pub open spec fn spec_is_hit(ttl: u64, entry: EntryState) -> bool {
    entry matches EntryState::Present { age_secs } && age_secs < ttl
}

/// Whether a lookup that finds `entry` has to delete its file.
pub open spec fn spec_is_expired(ttl: u64, entry: EntryState) -> bool {
    entry matches EntryState::Present { age_secs } && age_secs >= ttl
}

/// The identifier that a lookup of the request returns when it finds `entry`: that of the
/// request on a hit, none otherwise.
pub open spec fn spec_lookup(
    ttl: u64,
    text: Seq<char>,
    voice: Option<Seq<char>>,
    entry: EntryState,
) -> Option<Seq<char>> {
    if spec_is_hit(ttl, entry) {
        Some(spec_file_id(text, voice))
    } else {
        None
    }
}

/// Whether a sweep deletes `file`: it has the extension `wav`, its age is known, and the age
/// is not below the time to live.
pub open spec fn spec_is_swept(ttl: u64, name: Seq<char>, age_secs: Option<u64>) -> bool {
    spec_has_wav_extension(name) && (age_secs matches Some(age) && age >= ttl)
}

/// Whether `chars` ends in `.wav`.
fn chars_end_with_wav(chars: &Vec<char>) -> (b: bool)
    ensures
        b == spec_ends_with_wav(chars@),
{
    let n = chars.len();
    if n < 4 {
        return false;
    }
    let b = chars[n - 4] == '.' && chars[n - 3] == 'w' && chars[n - 2] == 'a' && chars[n - 1]
        == 'v';
    proof {
        let tail = chars@.skip(n - 4);
        let wav = seq!['.', 'w', 'a', 'v'];
        assert(tail.len() == 4);
        assert(tail[0] == chars@[n - 4] && tail[1] == chars@[n - 3] && tail[2] == chars@[n - 2]
            && tail[3] == chars@[n - 1]);
        assert(wav[0] == '.' && wav[1] == 'w' && wav[2] == 'a' && wav[3] == 'v');
        if b {
            assert(tail =~= wav);
        }
    }
    b
}

/// Whether `name` ends in `.wav`.
pub fn ends_with_wav(name: &str) -> (b: bool)
    ensures
        b == spec_ends_with_wav(name@),
{
    chars_end_with_wav(&chars_of(name))
}

/// Whether `name` has the extension `wav`.
pub fn has_wav_extension(name: &str) -> (b: bool)
    ensures
        b == spec_has_wav_extension(name@),
{
    let chars = chars_of(name);
    chars.len() > 4 && chars_end_with_wav(&chars)
}

/// A cache of synthesized audio, one file per request in a single directory, where a file
/// counts for `ttl_seconds` seconds after it was last written.
#[derive(Debug)]
pub struct AudioCache {
    cache_dir: String,
    ttl_seconds: u64,
}

impl AudioCache {
    /// The directory of the cache.
    pub closed spec fn dir(&self) -> Seq<char> {
        self.cache_dir@
    }

    /// The time to live of an entry, in seconds.
    pub closed spec fn ttl(&self) -> u64 {
        self.ttl_seconds
    }

    /// A cache over the directory `cache_dir`, whose entries live `ttl_seconds` seconds.
    pub fn new(cache_dir: &str, ttl_seconds: u64) -> (cache: AudioCache)
        ensures
            cache.dir() == cache_dir@,
            cache.ttl() == ttl_seconds,
    {
        AudioCache { cache_dir: cache_dir.to_owned(), ttl_seconds }
    }

    /// The directory of the cache.
    pub fn cache_dir(&self) -> (dir: &str)
        ensures
            dir@ == self.dir(),
    {
        self.cache_dir.as_str()
    }

    /// The time to live of an entry, in seconds.
    pub fn ttl_seconds(&self) -> (ttl: u64)
        ensures
            ttl == self.ttl(),
    {
        self.ttl_seconds
    }

    /// The identifier of the entry for `text` spoken by `voice`: sixteen hexadecimal digits
    /// taken from the SHA-256 digest of the request.
    pub fn get_file_id(&self, text: &str, voice: Option<&str>) -> (id: String)
        ensures
            id@ == spec_file_id(text@, voice_view(voice)),
    {
        let message = request_bytes(text, voice);
        let digest = sha256(message.as_slice());
        file_id_of_digest(digest.as_slice())
    }

    /// The path of the file that holds the entry `file_id`.
    pub fn get_file_path(&self, file_id: &str) -> (path: String)
        ensures
            path@ == spec_entry_path(self.dir(), file_id@),
    {
        let mut path = chars_of(self.cache_dir.as_str());
        let n = path.len();
        if n > 0 && path[n - 1] != '/' {
            path.push('/');
        }
        let id = chars_of(file_id);
        let mut i: usize = 0;
        let ghost stem = path@;
        while i < id.len()
            invariant
                i <= id.len(),
                path@ == stem + id@.take(i as int),
            decreases id.len() - i,
        {
            path.push(id[i]);
            i += 1;
        }
        assert(id@.take(id.len() as int) == id@);
        path.push('.');
        path.push('w');
        path.push('a');
        path.push('v');
        assert(path@ =~= stem + spec_entry_name(file_id@));
        string_of(&path)
    }

    /// Looks the request up, given what the file system shows of its entry. A file younger
    /// than the time to live is a hit; an older one is a miss, and is to be deleted; anything
    /// else is a miss.
    pub fn lookup(&self, text: &str, voice: Option<&str>, entry: EntryState) -> (lookup: Lookup)
        ensures
            match lookup.file_id {
                Some(id) => spec_lookup(self.ttl(), text@, voice_view(voice), entry) == Some(id@),
                None => spec_lookup(self.ttl(), text@, voice_view(voice), entry) is None,
            },
            lookup.expired == spec_is_expired(self.ttl(), entry),
    {
        match entry {
            EntryState::Present { age_secs } => {
                if age_secs < self.ttl_seconds {
                    Lookup { file_id: Some(self.get_file_id(text, voice)), expired: false }
                } else {
                    Lookup { file_id: None, expired: true }
                }
            },
            _ => Lookup { file_id: None, expired: false },
        }
    }

    /// Where the waveform for the request is written: the entry's identifier and the path of
    /// its file, whose earlier content is replaced.
    pub fn save(&self, text: &str, voice: Option<&str>) -> (target: SaveTarget)
        ensures
            target.file_id@ == spec_file_id(text@, voice_view(voice)),
            target.path@ == spec_entry_path(self.dir(), target.file_id@),
    {
        let file_id = self.get_file_id(text, voice);
        let path = self.get_file_path(file_id.as_str());
        SaveTarget { file_id, path }
    }

    /// The files of `listing` that a sweep deletes, by their positions in ascending order:
    /// each file with the extension `wav` whose age is known and not below the time to live,
    /// and no other.
    pub fn cleanup(&self, listing: &Vec<FileInfo>) -> (doomed: Vec<usize>)
        ensures
            forall|k: int| 0 <= k < doomed.len() ==> 0 <= #[trigger] doomed[k] < listing.len(),
            forall|j: int, k: int| 0 <= j < k < doomed.len() ==> doomed[j] < doomed[k],
            forall|i: int|
                0 <= i < listing.len() ==> (doomed@.contains(i as usize) <==> spec_is_swept(
                    self.ttl(),
                    (#[trigger] listing[i]).name@,
                    listing[i].age_secs,
                )),
    {
        let mut doomed: Vec<usize> = Vec::new();
        let mut i: usize = 0;
        while i < listing.len()
            invariant
                i <= listing.len(),
                forall|k: int| 0 <= k < doomed.len() ==> 0 <= #[trigger] doomed[k] < i,
                forall|j: int, k: int| 0 <= j < k < doomed.len() ==> doomed[j] < doomed[k],
                forall|m: int|
                    0 <= m < i ==> (doomed@.contains(m as usize) <==> spec_is_swept(
                        self.ttl(),
                        (#[trigger] listing[m]).name@,
                        listing[m].age_secs,
                    )),
            decreases listing.len() - i,
        {
            let file = &listing[i];
            let swept = match file.age_secs {
                Some(age) => age >= self.ttl_seconds && has_wav_extension(file.name.as_str()),
                None => false,
            };
            let ghost before = doomed@;
            if swept {
                doomed.push(i);
            }
            proof {
                assert forall|m: int| 0 <= m < i + 1 implies (doomed@.contains(m as usize)
                    <==> spec_is_swept(
                    self.ttl(),
                    (#[trigger] listing[m]).name@,
                    listing[m].age_secs,
                )) by {
                    if swept {
                        assert(doomed@ == before.push(i));
                        assert(doomed@[before.len() as int] == i);
                        if m < i && before.contains(m as usize) {
                            let k = choose|k: int| 0 <= k < before.len() && before[k] == m as usize;
                            assert(doomed@[k] == m as usize);
                        }
                    }
                }
            }
            i += 1;
        }
        doomed
    }
}

/// How many deletions of a sweep went through.
pub fn count_removed(outcomes: &Vec<bool>) -> (removed: usize)
    ensures
        removed == outcomes@.filter(|done: bool| done).len(),
{
    let mut removed: usize = 0;
    let mut i: usize = 0;
    while i < outcomes.len()
        invariant
            i <= outcomes.len(),
            removed <= i,
            removed == outcomes@.take(i as int).filter(|done: bool| done).len(),
        decreases outcomes.len() - i,
    {
        proof {
            assert(outcomes@.take(i + 1) == outcomes@.take(i as int).push(outcomes@[i as int]));
            outcomes@.take(i as int).lemma_filter_push(outcomes@[i as int], |done: bool| done);
        }
        if outcomes[i] {
            removed += 1;
        }
        i += 1;
    }
    assert(outcomes@.take(outcomes.len() as int) == outcomes@);
    removed
}

/// Whether two digests agree in each of their first eight bytes.
pub open spec fn spec_same_prefix(d1: Seq<u8>, d2: Seq<u8>) -> bool {
    forall|j: int| 0 <= j < 8 ==> d1[j] == d2[j]
}

/// Two digests spell the same identifier exactly when they agree in their first eight bytes.
pub proof fn lemma_id_of_digest_injective(d1: Seq<u8>, d2: Seq<u8>)
    ensures
        spec_id_of_digest(d1) == spec_id_of_digest(d2) <==> spec_same_prefix(d1, d2),
{
    let id1 = spec_id_of_digest(d1);
    let id2 = spec_id_of_digest(d2);
    if spec_same_prefix(d1, d2) {
        assert forall|i: int| 0 <= i < 16 implies id1[i] == id2[i] by {
            assert(d1[i / 2] == d2[i / 2]);
        }
        assert(id1 =~= id2);
    }
    if id1 == id2 {
        assert forall|j: int| 0 <= j < 8 implies d1[j] == d2[j] by {
            let (a, b) = (d1[j] as int, d2[j] as int);
            assert(id1[2 * j] == spec_hex_digit(a / 16) && id2[2 * j] == spec_hex_digit(b / 16));
            assert(id1[2 * j + 1] == spec_hex_digit(a % 16) && id2[2 * j + 1] == spec_hex_digit(
                b % 16,
            ));
            lemma_hex_digit_injective(a / 16, b / 16);
            lemma_hex_digit_injective(a % 16, b % 16);
        }
    }
}

/// Different nibbles have different digits.
proof fn lemma_hex_digit_injective(a: int, b: int)
    requires
        0 <= a < 16,
        0 <= b < 16,
        spec_hex_digit(a) == spec_hex_digit(b),
    ensures
        a == b,
{
    assert(spec_hex_digit(a) as int == if a < 10 {
        0x30 + a
    } else {
        0x61 + a - 10
    });
    assert(spec_hex_digit(b) as int == if b < 10 {
        0x30 + b
    } else {
        0x61 + b - 10
    });
}

/// Different texts are hashed as different messages, whatever the voice.
pub proof fn lemma_request_bytes_differ_by_text(
    t1: Seq<char>,
    t2: Seq<char>,
    voice: Option<Seq<char>>,
)
    requires
        t1 != t2,
    ensures
        spec_request_bytes(t1, voice) != spec_request_bytes(t2, voice),
{
    vstd::utf8::encode_utf8_decode_utf8(t1);
    vstd::utf8::encode_utf8_decode_utf8(t2);
    let (e1, e2) = (encode_utf8(t1), encode_utf8(t2));
    assert(e1 != e2);
    match voice {
        Some(name) => {
            let tail = voice_separator() + encode_utf8(name);
            let (m1, m2) = (spec_request_bytes(t1, voice), spec_request_bytes(t2, voice));
            assert(m1 =~= e1 + tail && m2 =~= e2 + tail);
            if m1 == m2 {
                assert(e1.len() == e2.len());
                assert(e1 =~= m1.take(e1.len() as int));
                assert(e2 =~= m2.take(e2.len() as int));
            }
        },
        None => {},
    }
}

/// Different voices, or a voice and none, are hashed as different messages, whatever the text.
pub proof fn lemma_request_bytes_differ_by_voice(
    text: Seq<char>,
    v1: Option<Seq<char>>,
    v2: Option<Seq<char>>,
)
    requires
        v1 != v2,
    ensures
        spec_request_bytes(text, v1) != spec_request_bytes(text, v2),
{
    let e = encode_utf8(text);
    let (m1, m2) = (spec_request_bytes(text, v1), spec_request_bytes(text, v2));
    match (v1, v2) {
        (Some(a), Some(b)) => {
            vstd::utf8::encode_utf8_decode_utf8(a);
            vstd::utf8::encode_utf8_decode_utf8(b);
            let (ea, eb) = (encode_utf8(a), encode_utf8(b));
            assert(ea != eb);
            let head = e + voice_separator();
            assert(m1 =~= head + ea && m2 =~= head + eb);
            if m1 == m2 {
                assert(ea =~= m1.skip(head.len() as int));
                assert(eb =~= m2.skip(head.len() as int));
            }
        },
        (Some(a), None) => {
            assert(m1.len() == e.len() + 7 + encode_utf8(a).len());
        },
        (None, Some(b)) => {
            assert(m2.len() == e.len() + 7 + encode_utf8(b).len());
        },
        (None, None) => {},
    }
}

/// The identifier of a request depends on its text and voice alone, and two requests share an
/// identifier exactly when the SHA-256 digests of their messages agree in the first eight
/// bytes. Requests that differ in the text only, or in the voice only, have different
/// messages.
pub proof fn lemma_file_id_collisions(
    t1: Seq<char>,
    v1: Option<Seq<char>>,
    t2: Seq<char>,
    v2: Option<Seq<char>>,
)
    ensures
        t1 == t2 && v1 == v2 ==> spec_file_id(t1, v1) == spec_file_id(t2, v2),
        spec_file_id(t1, v1) == spec_file_id(t2, v2) <==> spec_same_prefix(
            sha256_digest(spec_request_bytes(t1, v1)),
            sha256_digest(spec_request_bytes(t2, v2)),
        ),
        t1 != t2 && v1 == v2 ==> spec_request_bytes(t1, v1) != spec_request_bytes(t2, v2),
        t1 == t2 && v1 != v2 ==> spec_request_bytes(t1, v1) != spec_request_bytes(t2, v2),
{
    lemma_id_of_digest_injective(
        sha256_digest(spec_request_bytes(t1, v1)),
        sha256_digest(spec_request_bytes(t2, v2)),
    );
    if t1 != t2 && v1 == v2 {
        lemma_request_bytes_differ_by_text(t1, t2, v1);
    }
    if t1 == t2 && v1 != v2 {
        lemma_request_bytes_differ_by_voice(t1, v1, v2);
    }
}

/// A lookup that follows a save of the same request, while the file is younger than the time
/// to live, returns the identifier that the save returned. Once the file has reached the time
/// to live, the lookup returns none and has the file deleted.
pub proof fn lemma_save_then_lookup(
    ttl: u64,
    text: Seq<char>,
    voice: Option<Seq<char>>,
    age_secs: u64,
)
    ensures
        age_secs < ttl ==> spec_lookup(ttl, text, voice, EntryState::Present { age_secs })
            == Some(spec_file_id(text, voice)),
        age_secs >= ttl ==> spec_lookup(ttl, text, voice, EntryState::Present { age_secs })
            is None && spec_is_expired(ttl, EntryState::Present { age_secs }),
{
}

} // verus!
