use vstd::prelude::*;

use crate::error::EngineError;

verus! {

/// Whether a WAVE file stores integer or floating-point samples.
#[derive(PartialEq, Eq, Structural, Clone, Copy, Debug)]
pub enum SampleFormat {
    Float,
    Int,
}

/// The format of a WAVE file, as its header states it.
#[derive(PartialEq, Eq, Structural, Clone, Copy, Debug)]
pub struct WavSpec {
    pub channels: u16,
    pub sample_rate: u32,
    pub bits_per_sample: u16,
    pub sample_format: SampleFormat,
}

/// The format that `hound` reads from the header of the WAVE file `wav`, or
/// `None` where it refuses the file.
pub uninterp spec fn wav_header(wav: Seq<u8>) -> Option<WavSpec>;

/// The little-endian 16-bit number at offset `o` of `b`.
pub open spec fn le16(b: Seq<u8>, o: int) -> int {
    b[o] + 256 * b[o + 1]
}

/// The little-endian 32-bit number at offset `o` of `b`.
pub open spec fn le32(b: Seq<u8>, o: int) -> int {
    le16(b, o) + 65536 * le16(b, o + 2)
}

/// The plain header layout: the first chunk (at offset 12) is a `fmt ` chunk
/// of 16, 18 or 40 bytes, and the `data` chunk header comes right after it.
pub open spec fn plain_layout(b: Seq<u8>) -> bool {
    &&& b.len() >= 20
    &&& le32(b, 16) == 16 || le32(b, 16) == 18 || le32(b, 16) == 40
    &&& b.len() >= 28 + le32(b, 16)
    &&& b[12] == 0x66 && b[13] == 0x6d && b[14] == 0x74 && b[15] == 0x20
    &&& b[20 + le32(b, 16)] == 0x64 && b[21 + le32(b, 16)] == 0x61 && b[22 + le32(b, 16)] == 0x74
        && b[23 + le32(b, 16)] == 0x61
}

/// The format that the `fmt ` chunk of a plain header states: channels at
/// offset 22, sample rate at 24, bits per sample at 34 (for the extensible
/// tag `0xfffe`, the valid bits at 38 where they are not 0). The samples are
/// floating-point for the IEEE-float tag 3 and for the extensible tag with
/// the IEEE-float sub-format (whose GUID starts with 3 where PCM's starts
/// with 1), and integers otherwise (PCM, tag 1). The extensible fields are
/// read only from a 40-byte `fmt ` chunk, the one size that holds them.
pub open spec fn plain_layout_spec(b: Seq<u8>) -> WavSpec {
    let tag = le16(b, 20);
    let extensible = tag == 0xfffe && le32(b, 16) == 40;
    WavSpec {
        channels: le16(b, 22) as u16,
        sample_rate: le32(b, 24) as u32,
        bits_per_sample: (if extensible && le16(b, 38) > 0 {
            le16(b, 38)
        } else {
            le16(b, 34)
        }) as u16,
        sample_format: if tag == 3 || (extensible && b[44] == 3) {
            SampleFormat::Float
        } else {
            SampleFormat::Int
        },
    }
}

/// Calls `hound::WavReader::new` on the bytes and takes `spec()` of the reader.
/// Claimed: the outcome depends on the bytes alone (`wav_header`); a header
/// `hound` accepts has at least one channel; and for a plain header layout the
/// format is the one its `fmt ` chunk states (`plain_layout_spec`), as
/// `read_fmt_chunk` reads it: tag 1 keeps integer samples, tag 3 (with 32
/// bits) gives floating-point samples, and tag `0xfffe` takes the sample
/// format from the sub-format GUID and the bits from the valid-bits field
/// where it is not 0. What `hound` reads from other layouts is left unsaid.
#[verifier::external_body]
fn read_wav_spec(wav: &[u8]) -> (r: Result<WavSpec, hound::Error>)
    ensures
        r is Ok <==> wav_header(wav@) is Some,
        r matches Ok(s) ==> wav_header(wav@) == Some(s) && s.channels >= 1,
        plain_layout(wav@) ==> (r matches Ok(s) ==> s == plain_layout_spec(wav@)),
{
    let s = hound::WavReader::new(std::io::Cursor::new(wav))?.spec();
    let sample_format = match s.sample_format {
        hound::SampleFormat::Float => SampleFormat::Float,
        hound::SampleFormat::Int => SampleFormat::Int,
    };
    let (channels, sample_rate, bits_per_sample) = (s.channels, s.sample_rate, s.bits_per_sample);
    Ok(WavSpec { channels, sample_rate, bits_per_sample, sample_format })
}

fn read_le16(b: &[u8], o: usize) -> (v: u32)
    requires
        o + 1 < b@.len() <= usize::MAX,
    ensures
        v == le16(b@, o as int),
{
    b[o] as u32 + 256 * (b[o + 1] as u32)
}

fn read_le32(b: &[u8], o: usize) -> (v: u64)
    requires
        o + 3 < b@.len() <= usize::MAX,
    ensures
        v == le32(b@, o as int),
{
    let lo = read_le16(b, o) as u64;
    let hi = read_le16(b, o + 2) as u64;
    lo + 65536 * hi
}

/// The format stated by the header of `wav` where it has the plain layout.
pub fn plain_layout_format(wav: &[u8]) -> (r: Option<WavSpec>)
    ensures
        r == (if plain_layout(wav@) {
            Some(plain_layout_spec(wav@))
        } else {
            None::<WavSpec>
        }),
{
    if wav.len() < 20 {
        return None;
    }
    let f = read_le32(wav, 16);
    if !(f == 16 || f == 18 || f == 40) {
        return None;
    }
    let f = f as usize;
    if wav.len() < 28 + f {
        return None;
    }
    if !(wav[12] == 0x66 && wav[13] == 0x6d && wav[14] == 0x74 && wav[15] == 0x20) {
        return None;
    }
    if !(wav[20 + f] == 0x64 && wav[21 + f] == 0x61 && wav[22 + f] == 0x74 && wav[23 + f] == 0x61) {
        return None;
    }
    let tag = read_le16(wav, 20);
    let channels = read_le16(wav, 22);
    let sample_rate = read_le32(wav, 24);
    let extensible = tag == 0xfffe && f == 40;
    let valid_bits = read_le16(wav, 38);
    let bits = if extensible && valid_bits > 0 {
        valid_bits
    } else {
        read_le16(wav, 34)
    };
    let sample_format = if tag == 3 || (extensible && wav[44] == 3) {
        SampleFormat::Float
    } else {
        SampleFormat::Int
    };
    Some(
        WavSpec {
            channels: channels as u16,
            sample_rate: sample_rate as u32,
            bits_per_sample: bits as u16,
            sample_format,
        },
    )
}

/// The number of zero samples (over all channels) that `millis` milliseconds
/// of silence take in this format: whole frames only, rounded down.
pub open spec fn lead_samples(spec: WavSpec, millis: u32) -> int {
    (spec.sample_rate as int * millis as int / 1000) * spec.channels as int
}

/// The number of zero samples that make `millis` milliseconds of silence.
pub fn silence_lead(spec: &WavSpec, millis: u32) -> (n: u128)
    ensures
        n == lead_samples(*spec, millis),
{
    let rate = spec.sample_rate as u128;
    let ms = millis as u128;
    assert(rate * ms <= 0xffff_ffff_ffff_ffffu128) by (nonlinear_arith)
        requires
            rate <= 0xffff_ffffu128,
            ms <= 0xffff_ffffu128,
    ;
    let frames: u128 = rate * ms / 1000;
    assert(frames <= 0xffff_ffff_ffff_ffffu128);
    assert(frames * (spec.channels as u128) <= 0xffff_ffff_ffff_ffff_ffffu128) by (nonlinear_arith)
        requires
            frames <= 0xffff_ffff_ffff_ffffu128,
            spec.channels <= 0xffffu16,
    ;
    frames * (spec.channels as u128)
}

/// Reads the format of the WAVE file `wav` and the number of zero samples
/// that make `millis` milliseconds of leading silence for it. `hound` decides
/// whether the file is accepted; where the header has the plain layout (as the
/// files the engine writes do), the format is the one its `fmt ` chunk states,
/// so a file with floating-point samples is read as such.
pub fn wav_silence_lead(wav: &[u8], millis: u32) -> (r: Result<(WavSpec, u128), EngineError>)
    ensures
        match wav_header(wav@) {
            Some(s) => r matches Ok((spec, n)) && spec == s && n == lead_samples(s, millis),
            None => r matches Err(EngineError::Hound(_)),
        },
        plain_layout(wav@) ==> (r matches Ok((spec, n)) ==> spec == plain_layout_spec(wav@) && n
            == lead_samples(plain_layout_spec(wav@), millis)),
{
    match read_wav_spec(wav) {
        Ok(read) => {
            let spec = match plain_layout_format(wav) {
                Some(stated) => stated,
                None => read,
            };
            let n = silence_lead(&spec, millis);
            Ok((spec, n))
        },
        Err(e) => Err(EngineError::Hound(e)),
    }
}

} // verus!
