//! The WAV encoder: one channel of 16-bit PCM in a RIFF/WAVE container, written by the
//! `hound` crate.

use vstd::prelude::*;

verus! {

/// The number of channels of an encoded waveform.
pub const CHANNELS: u16 = 1;

/// The number of bits of an encoded sample.
pub const BITS_PER_SAMPLE: u16 = 16;

/// The number of bytes before the samples of an encoded waveform.
pub const HEADER_LEN: usize = 44;

/// The greatest sampling rate that can be encoded: twice the rate has to fit in 32 bits.
pub const MAX_SAMPLE_RATE: u32 = 0x7fff_ffff;

/// The greatest number of samples that can be encoded: the length of the file after its
/// first eight bytes has to fit in 32 bits.
pub const MAX_SAMPLES: usize = 0x7fff_ffed;

/// `hound::Error`, the error of the `hound` writer, carried without a look inside.
#[verifier::external_type_specification]
#[verifier::external_body]
pub struct ExHoundError(hound::Error);

/// Why a waveform cannot be encoded.
#[derive(Debug, Clone, Copy, PartialEq, Eq)]
pub enum EncodeError {
    /// The sampling rate is zero or above `MAX_SAMPLE_RATE`.
    SampleRate,
    /// There are more than `MAX_SAMPLES` samples.
    TooLong,
    /// The writer refused the waveform. `encode_wav` never returns this: the writer has no
    /// refusal for what is handed to it.
    Writer,
}

/// The two bytes of `v`, least significant first.
pub open spec fn spec_le16(v: int) -> Seq<u8> {
    seq![(v % 0x100) as u8, (v / 0x100 % 0x100) as u8]
}

/// The four bytes of `v`, least significant first.
pub open spec fn spec_le32(v: int) -> Seq<u8> {
    seq![
        (v % 0x100) as u8,
        (v / 0x100 % 0x100) as u8,
        (v / 0x1_0000 % 0x100) as u8,
        (v / 0x100_0000 % 0x100) as u8,
    ]
}

/// The sample as an unsigned 16-bit number, in two's complement.
pub open spec fn spec_sample_word(sample: i16) -> int {
    if sample < 0 {
        sample + 0x1_0000
    } else {
        sample as int
    }
}

/// The samples as bytes: two for each, least significant first.
pub open spec fn spec_pcm_data(samples: Seq<i16>) -> Seq<u8> {
    Seq::new(2 * samples.len(), |k: int| spec_le16(spec_sample_word(samples[k / 2]))[k % 2])
}

/// The header of a waveform of `sample_count` samples at `sample_rate` Hz: the `RIFF` chunk
/// with the length of what follows it, the `WAVE` mark, the `fmt ` chunk of a single channel
/// of 16-bit integer PCM, and the head of the `data` chunk with the length of the samples.
pub open spec fn spec_wav_header(sample_count: nat, sample_rate: u32) -> Seq<u8> {
    seq![0x52u8, 0x49u8, 0x46u8, 0x46u8] + spec_le32(36 + 2 * sample_count as int) + seq![
        0x57u8,
        0x41u8,
        0x56u8,
        0x45u8,
    ] + seq![0x66u8, 0x6du8, 0x74u8, 0x20u8] + spec_le32(16) + spec_le16(1) + spec_le16(
        CHANNELS as int,
    ) + spec_le32(sample_rate as int) + spec_le32(2 * sample_rate) + spec_le16(2) + spec_le16(
        BITS_PER_SAMPLE as int,
    ) + seq![0x64u8, 0x61u8, 0x74u8, 0x61u8] + spec_le32(2 * sample_count as int)
}

/// The WAV file that holds `samples` at `sample_rate` Hz: the header and the samples.
pub open spec fn spec_wav(samples: Seq<i16>, sample_rate: u32) -> Seq<u8> {
    spec_wav_header(samples.len(), sample_rate) + spec_pcm_data(samples)
}

/// Whether a waveform of `sample_count` samples at `sample_rate` Hz can be encoded.
pub open spec fn spec_encodable(sample_count: nat, sample_rate: u32) -> bool {
    0 < sample_rate <= MAX_SAMPLE_RATE && sample_count <= MAX_SAMPLES
}

/// Writes `samples` through a `hound::WavWriter` into memory: `WavWriter::new` with the given
/// format of integer samples, `write_sample` for each sample in order, and `finalize`. Not
/// proved: that the writer succeeds, and that the bytes written are those of `spec_wav`. For
/// 16-bit integer samples of one channel `hound` has no error of its own: it accepts the
/// depth, a 16-bit sample always fits, and a frame of one channel is never left unfinished;
/// the cursor it writes to is in memory. The rates and lengths on which `hound` would
/// overflow a 32-bit field, or divide by a rate of zero, are left out.
#[verifier::external_body]
fn write_pcm16(samples: &[i16], channels: u16, sample_rate: u32, bits_per_sample: u16) -> (written:
    Result<Vec<u8>, hound::Error>)
    requires
        channels == CHANNELS,
        bits_per_sample == BITS_PER_SAMPLE,
        spec_encodable(samples@.len(), sample_rate),
    ensures
        written is Ok,
        written->Ok_0@ == spec_wav(samples@, sample_rate),
{
    let format = hound::SampleFormat::Int;
    let spec = hound::WavSpec { channels, sample_rate, bits_per_sample, sample_format: format };
    let mut cursor = std::io::Cursor::new(Vec::new());
    let mut writer = hound::WavWriter::new(&mut cursor, spec)?;
    for sample in samples {
        writer.write_sample(*sample)?;
    }
    writer.finalize()?;
    Ok(cursor.into_inner())
}

/// What `encode_wav` returns for what the writer returned: the bytes, or `Writer`.
pub fn encoded(written: Result<Vec<u8>, hound::Error>) -> (result: Result<Vec<u8>, EncodeError>)
    ensures
        match written {
            Ok(bytes) => result == Ok::<Vec<u8>, EncodeError>(bytes),
            Err(_) => result == Err::<Vec<u8>, EncodeError>(EncodeError::Writer),
        },
{
    match written {
        Ok(bytes) => Ok(bytes),
        Err(_) => Err(EncodeError::Writer),
    }
}

/// What encoding `samples` at `sample_rate` Hz yields: the WAV file, where the format can hold
/// the rate and the length; else the refusal of the rate, or, with a rate that can be held,
/// of the length.
pub open spec fn spec_encode_wav(samples: Seq<i16>, sample_rate: u32) -> Result<
    Seq<u8>,
    EncodeError,
> {
    if !(0 < sample_rate <= MAX_SAMPLE_RATE) {
        Err(EncodeError::SampleRate)
    } else if samples.len() > MAX_SAMPLES {
        Err(EncodeError::TooLong)
    } else {
        Ok(spec_wav(samples, sample_rate))
    }
}

/// The WAV file, in memory, of the 16-bit samples of one channel at `sample_rate` Hz. A rate
/// or a length that the format cannot hold is refused. Every other waveform is encoded, and
/// the bytes are those of `spec_wav`.
pub fn encode_wav(samples: &[i16], sample_rate: u32) -> (result: Result<Vec<u8>, EncodeError>)
    ensures
        spec_encodable(samples@.len(), sample_rate) ==> result is Ok,
        match result {
            Ok(bytes) => spec_encode_wav(samples@, sample_rate) == Ok::<Seq<u8>, EncodeError>(
                bytes@,
            ),
            Err(error) => spec_encode_wav(samples@, sample_rate) == Err::<Seq<u8>, EncodeError>(
                error,
            ),
        },
{
    if sample_rate == 0 || sample_rate > MAX_SAMPLE_RATE {
        return Err(EncodeError::SampleRate);
    }
    if samples.len() > MAX_SAMPLES {
        return Err(EncodeError::TooLong);
    }
    encoded(write_pcm16(samples, CHANNELS, sample_rate, BITS_PER_SAMPLE))
}

/// Encoding depends on the samples and the rate alone, and succeeds exactly on what the
/// format can hold.
pub proof fn lemma_encode_wav_total(samples: Seq<i16>, sample_rate: u32)
    ensures
        spec_encode_wav(samples, sample_rate) is Ok <==> spec_encodable(
            samples.len(),
            sample_rate,
        ),
        spec_encode_wav(samples, sample_rate) is Ok ==> spec_encode_wav(samples, sample_rate)->Ok_0
            == spec_wav(samples, sample_rate),
        !(spec_encode_wav(samples, sample_rate) matches Err(EncodeError::Writer)),
{
}

/// An encoded waveform is 44 bytes longer than its samples, begins with `RIFF`, and holds
/// `WAVE` in its bytes 8 to 11. Without samples it is the header alone.
pub proof fn lemma_wav_layout(samples: Seq<i16>, sample_rate: u32)
    ensures
        spec_wav(samples, sample_rate).len() == HEADER_LEN + 2 * samples.len(),
        spec_wav(samples, sample_rate).subrange(0, 4) == seq![0x52u8, 0x49u8, 0x46u8, 0x46u8],
        spec_wav(samples, sample_rate).subrange(8, 12) == seq![0x57u8, 0x41u8, 0x56u8, 0x45u8],
        samples.len() > 0 ==> spec_wav(samples, sample_rate).len() > HEADER_LEN,
        samples.len() == 0 ==> spec_wav(samples, sample_rate) == spec_wav_header(0, sample_rate),
{
    let wav = spec_wav(samples, sample_rate);
    let header = spec_wav_header(samples.len(), sample_rate);
    assert(header.len() == 44);
    assert(wav.subrange(0, 4) =~= seq![0x52u8, 0x49u8, 0x46u8, 0x46u8]);
    assert(wav.subrange(8, 12) =~= seq![0x57u8, 0x41u8, 0x56u8, 0x45u8]);
    if samples.len() == 0 {
        assert(wav =~= header);
    }
}

} // verus!
