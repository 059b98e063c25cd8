//! The sound side of the emulator: when the beep starts and stops, and the
//! header of the WAV clip that it plays.

use vstd::prelude::*;

verus! {

/// What the audio output should do.
#[derive(Debug, Clone, Copy, PartialEq, Eq)]
pub enum SoundAction {
    /// Start the looping beep.
    Start,
    /// Stop the beep.
    Stop,
    /// Leave the output as it is.
    Keep,
}

/// The beep plays exactly while the sound timer is non-zero: it starts when
/// the timer is set and nothing plays, and stops when the timer runs out.
pub fn sound_action(playing: bool, sound_timer: u8) -> (a: SoundAction)
    ensures
        a == (if sound_timer > 0 && !playing {
            SoundAction::Start
        } else if sound_timer == 0 && playing {
            SoundAction::Stop
        } else {
            SoundAction::Keep
        }),
{
    if sound_timer > 0 && !playing {
        SoundAction::Start
    } else if sound_timer == 0 && playing {
        SoundAction::Stop
    } else {
        SoundAction::Keep
    }
}

/// Samples per second of the generated clip.
pub const SAMPLE_RATE: u32 = 44_100;

/// The four little-endian bytes of `v`.
pub open spec fn le32(v: u32) -> Seq<u8> {
    seq![(v % 256) as u8, ((v / 256) % 256) as u8, ((v / 65536) % 256) as u8, (v / 16777216) as u8]
}

/// The two little-endian bytes of `v`.
pub open spec fn le16(v: u16) -> Seq<u8> {
    seq![(v % 256) as u8, (v / 256) as u8]
}

/// The 44-byte header of a mono, 16-bit, 44.1 kHz PCM WAV file holding
/// `num_samples` samples (sizes wrap to 32 bits).
pub open spec fn wav_header_bytes(num_samples: nat) -> Seq<u8> {
    let data_size = num_samples * 2;
    seq![0x52u8, 0x49, 0x46, 0x46] + le32((36 + data_size) as u32) + seq![0x57u8, 0x41, 0x56, 0x45]
        + seq![0x66u8, 0x6D, 0x74, 0x20] + le32(16) + le16(1) + le16(1) + le32(44100) + le32(88200)
        + le16(2) + le16(16) + seq![0x64u8, 0x61, 0x74, 0x61] + le32(data_size as u32)
}

fn push_le32(v: &mut Vec<u8>, x: u32)
    ensures
        final(v)@ == old(v)@ + le32(x),
{
    let b0 = (x & 0xFF) as u8;
    let b1 = ((x >> 8) & 0xFF) as u8;
    let b2 = ((x >> 16) & 0xFF) as u8;
    let b3 = (x >> 24) as u8;
    assert(x & 0xFF == x % 256 && (x >> 8) & 0xFF == (x / 256) % 256 && (x >> 16) & 0xFF == (x / 65536) % 256
        && x >> 24 == x / 16777216) by (bit_vector);
    v.push(b0);
    v.push(b1);
    v.push(b2);
    v.push(b3);
    assert(v@ =~= old(v)@ + le32(x));
}

fn push_le16(v: &mut Vec<u8>, x: u16)
    ensures
        final(v)@ == old(v)@ + le16(x),
{
    let b0 = (x & 0xFF) as u8;
    let b1 = (x >> 8) as u8;
    assert(x & 0xFF == x % 256 && x >> 8 == x / 256) by (bit_vector);
    v.push(b0);
    v.push(b1);
    assert(v@ =~= old(v)@ + le16(x));
}

fn push_tag(v: &mut Vec<u8>, a: u8, b: u8, c: u8, d: u8)
    ensures
        final(v)@ == old(v)@ + seq![a, b, c, d],
{
    v.push(a);
    v.push(b);
    v.push(c);
    v.push(d);
    assert(v@ =~= old(v)@ + seq![a, b, c, d]);
}

/// The WAV header for a clip of `num_samples` 16-bit samples; the samples
/// themselves follow it, little-endian.
pub fn wav_header(num_samples: usize) -> (h: Vec<u8>)
    requires
        num_samples * 2 + 36 <= usize::MAX,
    ensures
        h@ == wav_header_bytes(num_samples as nat),
{
    let data_size = num_samples * 2;
    let file_size = 36 + data_size;
    let mut wav: Vec<u8> = Vec::new();
    // RIFF header
    push_tag(&mut wav, 0x52, 0x49, 0x46, 0x46);
    push_le32(&mut wav, file_size as u32);
    push_tag(&mut wav, 0x57, 0x41, 0x56, 0x45);
    // fmt chunk
    push_tag(&mut wav, 0x66, 0x6D, 0x74, 0x20);
    push_le32(&mut wav, 16);
    push_le16(&mut wav, 1);
    push_le16(&mut wav, 1);
    push_le32(&mut wav, SAMPLE_RATE);
    push_le32(&mut wav, SAMPLE_RATE * 2);
    push_le16(&mut wav, 2);
    push_le16(&mut wav, 16);
    // data chunk
    push_tag(&mut wav, 0x64, 0x61, 0x74, 0x61);
    push_le32(&mut wav, data_size as u32);
    assert(wav@ =~= wav_header_bytes(num_samples as nat));
    wav
}

} // verus!
