//! Audio input devices as the settings screen lists them (every input device
//! whose name could be read, in the host's order, with the host's default
//! input device marked), and a recording as it is handed to the transcriber:
//! mono 16-bit PCM in a WAV container, base64-encoded.
use base64::Engine;
use vstd::prelude::*;
use crate::text::str_eq;

verus! {

/// An input device, by name.
#[derive(Debug, Clone)]
pub struct AudioDevice {
    pub name: String,
    pub is_default: bool,
}

/// The names that could be read, in order.
pub open spec fn readable_names(names: Seq<Option<String>>) -> Seq<Seq<char>>
    decreases names.len(),
{
    if names.len() == 0 {
        Seq::empty()
    } else {
        let front = readable_names(names.drop_last());
        match names.last() {
            Some(n) => front.push(n@),
            None => front,
        }
    }
}

/// Whether the device named `name` is the default one.
pub open spec fn is_default_name(name: Seq<char>, default_name: Option<String>) -> bool {
    match default_name {
        Some(d) => d@ == name,
        None => false,
    }
}

/// The device list from the host's input devices, each given by its name or
/// `None` where the name could not be read, and the default input device's
/// name, if there is one whose name could be read.
pub fn input_device_list(names: Vec<Option<String>>, default_name: Option<String>) -> (v: Vec<AudioDevice>)
    ensures
        v@.len() == readable_names(names@).len(),
        forall|k: int| 0 <= k < v@.len() ==> {
            &&& (#[trigger] v@[k]).name@ == readable_names(names@)[k]
            &&& v@[k].is_default == is_default_name(v@[k].name@, default_name)
        },
{
    let ghost all = names@;
    let total: usize = names.len();
    let mut rest = names;
    let mut out: Vec<AudioDevice> = Vec::new();
    let mut k: usize = 0;
    assert(all.take(0) =~= Seq::<Option<String>>::empty());
    assert(all.skip(0) =~= all);
    while rest.len() > 0
        invariant
            rest@.len() + k == all.len(),
            all.len() == total,
            rest@ == all.skip(k as int),
            out@.len() == readable_names(all.take(k as int)).len(),
            forall|j: int| 0 <= j < out@.len() ==> {
                &&& (#[trigger] out@[j]).name@ == readable_names(all.take(k as int))[j]
                &&& out@[j].is_default == is_default_name(out@[j].name@, default_name)
            },
        decreases rest@.len(),
    {
        let n = rest.remove(0);
        proof {
            assert(n == all[k as int]);
            assert(rest@ =~= all.skip(k + 1));
            assert(all.take(k + 1).drop_last() =~= all.take(k as int));
            assert(all.take(k + 1).last() == all[k as int]);
        }
        match n {
            Some(name) => {
                let is_default = match &default_name {
                    Some(d) => str_eq(d.as_str(), name.as_str()),
                    None => false,
                };
                out.push(AudioDevice { name, is_default });
            },
            None => {},
        }
        k = k + 1;
    }
    assert(all.take(all.len() as int) =~= all);
    out
}

// ---------------------------------------------------------------------------
// The recording as a base64 WAV file
// ---------------------------------------------------------------------------

/// `v` (below 2^16) as two bytes, least significant first.
pub open spec fn le16(v: int) -> Seq<u8> {
    seq![(v % 256) as u8, ((v / 256) % 256) as u8]
}

/// `v` (below 2^32) as four bytes, least significant first.
pub open spec fn le32(v: int) -> Seq<u8> {
    le16(v % 65536) + le16(v / 65536)
}

/// The samples as two's-complement little-endian pairs of bytes.
pub open spec fn pcm16_bytes(s: Seq<i16>) -> Seq<u8>
    decreases s.len(),
{
    if s.len() == 0 {
        Seq::empty()
    } else {
        pcm16_bytes(s.drop_last()) + le16(
            if s.last() < 0 {
                s.last() + 65536
            } else {
                s.last() as int
            },
        )
    }
}

/// Four ASCII letters.
pub open spec fn tag(a: char, b: char, c: char, d: char) -> Seq<u8> {
    seq![a as u8, b as u8, c as u8, d as u8]
}

/// A WAV file of one channel of 16-bit integer samples at `rate` samples a
/// second: the RIFF header, the 16-byte PCM `fmt ` chunk, and the `data`
/// chunk.
#[verifier::opaque]
pub open spec fn wav_mono16_bytes(samples: Seq<i16>, rate: u32) -> Seq<u8> {
    let n: int = 2 * samples.len() as int;
    tag('R', 'I', 'F', 'F') + le32(n + 36) + tag('W', 'A', 'V', 'E') + tag('f', 'm', 't', ' ') + le32(16)
        + le16(1) + le16(1) + le32(rate as int) + le32(2 * rate) + le16(2) + le16(16) + tag('d', 'a', 't', 'a')
        + le32(n) + pcm16_bytes(samples)
}

/// `hound::WavWriter` over an in-memory buffer: a header for one channel of
/// 16-bit integer samples, each sample written little-endian, then
/// `finalize`, which fills in the RIFF and data sizes. The contract claims
/// the bytes as hound's source writes them (PCMWAVEFORMAT, as for at most two
/// channels of at most 16 bits), and success: hound's source fails only for
/// an unsupported bit depth (16 is supported), for an I/O error of the
/// underlying writer (a `Vec`-backed `Cursor` whose position fits in `usize`
/// reports none), or for an unfinished frame (with one channel there is
/// none). The rate is non-zero (hound divides by it) and twice it fits in
/// `u32`, as do the data and file sizes (hound adds them up in `u32`); the
/// whole file's length fits in `usize`.
#[verifier::external_body]
fn hound_wav_mono16(samples: &[i16], sample_rate: u32) -> (r: Result<Vec<u8>, String>)
    requires
        0 < sample_rate <= u32::MAX / 2,
        2 * samples@.len() + 36 <= u32::MAX,
        2 * samples@.len() + 44 <= usize::MAX,
    ensures
        match r {
            Ok(v) => v@ == wav_mono16_bytes(samples@, sample_rate),
            Err(_) => false,
        },
{
    let spec = hound::WavSpec { channels: 1, sample_rate, bits_per_sample: 16, sample_format: hound::SampleFormat::Int };
    let mut buffer = std::io::Cursor::new(Vec::new());
    let mut writer =
        hound::WavWriter::new(&mut buffer, spec).map_err(|e| format!("Failed to create WAV writer: {}", e))?;
    for &s in samples {
        writer.write_sample(s).map_err(|e| format!("Failed to write sample: {}", e))?;
    }
    writer.finalize().map_err(|e| format!("Failed to finalize WAV: {}", e))?;
    Ok(buffer.into_inner())
}

/// The character of a base64 digit in the standard alphabet
/// `A`-`Z`, `a`-`z`, `0`-`9`, `+`, `/`.
pub open spec fn b64_digit(v: int) -> char {
    if v < 26 {
        (65 + v) as char
    } else if v < 52 {
        (97 + v - 26) as char
    } else if v < 62 {
        (48 + v - 52) as char
    } else if v == 62 {
        '+'
    } else {
        '/'
    }
}

/// Base64 with the standard alphabet and `=` padding (RFC 4648): each group
/// of three bytes gives four digits; a last group of one or two bytes gives
/// two or three digits and then padding.
#[verifier::opaque]
pub open spec fn base64_standard(b: Seq<u8>) -> Seq<char>
    decreases b.len(),
{
    let x: int = if b.len() > 0 { b[0] as int } else { 0 };
    let y: int = if b.len() > 1 { b[1] as int } else { 0 };
    let z: int = if b.len() > 2 { b[2] as int } else { 0 };
    if b.len() == 0 {
        Seq::empty()
    } else if b.len() == 1 {
        seq![b64_digit(x / 4), b64_digit((x % 4) * 16), '=', '=']
    } else if b.len() == 2 {
        seq![b64_digit(x / 4), b64_digit((x % 4) * 16 + y / 16), b64_digit((y % 16) * 4), '=']
    } else {
        seq![
            b64_digit(x / 4),
            b64_digit((x % 4) * 16 + y / 16),
            b64_digit((y % 16) * 4 + z / 64),
            b64_digit(z % 64),
        ] + base64_standard(b.skip(3))
    }
}

/// `base64::engine::general_purpose::STANDARD.encode`: the standard alphabet
/// with padding, as the crate documents it; the contract states that
/// encoding. The crate panics when the encoded length overflows `usize`,
/// which the bound on the input rules out.
#[verifier::external_body]
fn base64_encode(bytes: &[u8]) -> (r: String)
    requires
        (bytes@.len() + 2) / 3 * 4 <= usize::MAX,
    ensures
        r@ == base64_standard(bytes@),
{
    base64::engine::general_purpose::STANDARD.encode(bytes)
}

/// A recording of 16-bit samples at `sample_rate` as the transcriber takes
/// it: a mono WAV file, base64-encoded. It always succeeds. The rate is non-zero and twice it fits in `u32`, as do the data and file
/// sizes; the encoded text's length fits in `usize`.
pub fn wav_base64(samples: &Vec<i16>, sample_rate: u32) -> (r: Result<String, String>)
    requires
        0 < sample_rate <= u32::MAX / 2,
        2 * samples@.len() + 36 <= u32::MAX,
        (46 + 2 * samples@.len()) / 3 * 4 <= usize::MAX,
    ensures
        match r {
            Ok(s) => s@ == base64_standard(wav_mono16_bytes(samples@, sample_rate)),
            Err(_) => false,
        },
{
    let wav = hound_wav_mono16(samples.as_slice(), sample_rate)?;
    proof {
        lemma_wav_len(samples@, sample_rate);
    }
    Ok(base64_encode(wav.as_slice()))
}

proof fn lemma_wav_len(samples: Seq<i16>, rate: u32)
    ensures
        wav_mono16_bytes(samples, rate).len() == 44 + 2 * samples.len(),
{
    reveal(wav_mono16_bytes);
    lemma_pcm16_len(samples);
}

proof fn lemma_pcm16_len(s: Seq<i16>)
    ensures
        pcm16_bytes(s).len() == 2 * s.len(),
    decreases s.len(),
{
    if s.len() > 0 {
        lemma_pcm16_len(s.drop_last());
    }
}

} // verus!
