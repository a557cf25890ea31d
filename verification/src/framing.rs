//! Wire framing of audio chunks.
//!
//! Every datagram starts with a one-byte tag. A silent chunk is elided: its
//! frame carries only the length that the equivalent sound frame would have
//! had, so that the receiver can advance its playback cursor without the
//! redundant zero payload. Any other chunk travels verbatim behind its tag.

use crate::silence::all_zero;
use crate::silence::is_silence;
use byteorder::ByteOrder;
use byteorder::LittleEndian;
use vstd::prelude::*;

verus! {

/// Default transfer unit: the longest chunk, in bytes, that one frame carries.
pub const CHUNK_SIZE: usize = 1024;

/// Tag of a frame that stands for an all-zero chunk.
pub const DATA_SILENCE: u8 = 0;

/// Tag of a frame that carries raw PCM bytes.
pub const DATA_SOUND: u8 = 1;

/// Tag of a format announcement.
pub const DATA_CONTROL: u8 = 2;

/// Length of a silence frame: the tag and a two-byte length field.
pub const SILENCE_FRAME_LEN: usize = 3;

/// The two-byte little-endian encoding of the low sixteen bits of `n`.
pub open spec fn le16(n: nat) -> Seq<u8> {
    seq![(n % 256) as u8, ((n / 256) % 256) as u8]
}

/// The number that two little-endian bytes encode.
pub open spec fn le16_value(bytes: Seq<u8>) -> nat
    recommends
        bytes.len() == 2,
{
    bytes[0] as nat + 256 * (bytes[1] as nat)
}

/// The frame that elides a silent segment of `size` bytes, tag included.
pub open spec fn silence_frame(size: nat) -> Seq<u8> {
    seq![DATA_SILENCE] + le16(size)
}

/// The frame that carries `chunk` verbatim.
pub open spec fn sound_frame(chunk: Seq<u8>) -> Seq<u8> {
    seq![DATA_SOUND] + chunk
}

/// The frame of a chunk: a silence frame announcing the chunk's length plus
/// one for an all-zero chunk, a sound frame for any other.
pub open spec fn frame_of(chunk: Seq<u8>) -> Seq<u8> {
    if all_zero(chunk) {
        silence_frame(chunk.len() + 1)
    } else {
        sound_frame(chunk)
    }
}

/// Calls `byteorder::LittleEndian::write_u16` on the part of `buf` that
/// starts at `at`. That function copies `n.to_le_bytes()` over the first two
/// bytes of the slice it is given and panics on a shorter slice: the low
/// byte of `n` lands at `at`, the high byte at `at + 1`, and no other byte
/// of `buf` changes.
#[verifier::external_body]
fn write_u16_le(buf: &mut Vec<u8>, at: usize, n: u16)
    requires
        at + 2 <= old(buf)@.len(),
    ensures
        final(buf)@ == old(buf)@.update(at as int, (n % 256) as u8).update(
            at + 1,
            (n / 256) as u8,
        ),
{
    LittleEndian::write_u16(&mut buf[at..], n);
}

/// Writes a silence frame for a segment of `size` bytes over the first three
/// bytes of `buf` and returns the number of leading bytes of `buf` that make
/// up the datagram. The length field holds the low sixteen bits of `size`;
/// the rest of `buf` is left as it was.
pub fn send_silence(buf: &mut Vec<u8>, size: usize) -> (sent: usize)
    requires
        old(buf)@.len() >= 3,
    ensures
        sent == SILENCE_FRAME_LEN,
        final(buf)@.len() == old(buf)@.len(),
        final(buf)@.take(3) == silence_frame(size as nat),
        final(buf)@.skip(3) == old(buf)@.skip(3),
{
    buf[0] = DATA_SILENCE;
    let field: u16 = (size % 65536) as u16;
    write_u16_le(buf, 1, field);
    assert(field % 256 == size % 256);
    assert(field / 256 == (size / 256) % 256);
    assert(buf@.take(3) =~= silence_frame(size as nat));
    assert(buf@.skip(3) =~= old(buf)@.skip(3));
    SILENCE_FRAME_LEN
}

/// Frames one chunk: see [`frame_of`].
pub fn frame(chunk: &[u8]) -> (out: Vec<u8>)
    ensures
        out@ == frame_of(chunk@),
{
    if is_silence(chunk) {
        let mut out: Vec<u8> = vec![0u8; 3];
        let low: usize = chunk.len() % 65536;
        let size: usize = (low + 1) % 65536;
        send_silence(&mut out, size);
        proof {
            lemma_le16_low_bits(size as nat, chunk@.len() + 1);
            assert(out@ =~= out@.take(3));
        }
        out
    } else {
        let mut out: Vec<u8> = Vec::new();
        out.push(DATA_SOUND);
        out.extend_from_slice(chunk);
        assert(out@ =~= sound_frame(chunk@));
        out
    }
}

/// The length field depends on the low sixteen bits of the size alone.
pub proof fn lemma_le16_low_bits(a: nat, b: nat)
    requires
        a % 65536 == b % 65536,
    ensures
        le16(a) == le16(b),
{
    assert(a % 256 == b % 256);
    assert((a / 256) % 256 == (b / 256) % 256);
}

/// Decoding a length field gives back the low sixteen bits of what was
/// encoded, and the number itself where it fits in sixteen bits.
pub proof fn lemma_le16_roundtrip(n: nat)
    ensures
        le16(n).len() == 2,
        le16_value(le16(n)) == n % 65536,
        n <= 0xffff ==> le16_value(le16(n)) == n,
{
    let low = n % 256;
    let high = (n / 256) % 256;
    assert(low as u8 == low);
    assert(high as u8 == high);
    assert(n % 65536 == low + 256 * high);
}

/// A silent chunk of `n` bytes whose frame length fits the field is framed
/// as the silence tag followed by a payload that decodes to exactly `n + 1`.
pub proof fn lemma_silence_frame_decodes(chunk: Seq<u8>)
    requires
        all_zero(chunk),
        chunk.len() + 1 <= 0xffff,
    ensures
        frame_of(chunk).len() == SILENCE_FRAME_LEN,
        frame_of(chunk)[0] == DATA_SILENCE,
        le16_value(frame_of(chunk).skip(1)) == chunk.len() + 1,
{
    lemma_le16_roundtrip(chunk.len() + 1);
    assert(frame_of(chunk).skip(1) =~= le16(chunk.len() + 1));
}

/// A chunk that is not silent is framed as the sound tag followed by the
/// chunk's own bytes, one byte longer than the chunk.
pub proof fn lemma_sound_frame_verbatim(chunk: Seq<u8>)
    requires
        !all_zero(chunk),
    ensures
        frame_of(chunk) == seq![DATA_SOUND] + chunk,
        frame_of(chunk).len() == chunk.len() + 1,
        frame_of(chunk)[0] == DATA_SOUND,
        frame_of(chunk).skip(1) == chunk,
{
    assert(frame_of(chunk).skip(1) =~= chunk);
}

} // verus!
