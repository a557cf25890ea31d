//! Format announcements.
//!
//! Whenever the capture backend reports that it has settled on a raw PCM
//! audio format, the receiver is told with one control frame: the control
//! tag followed by the ASCII text `<bit depth> <sample rate> <buffer size>`,
//! each number in decimal. Reports of any other kind are ignored.

use crate::framing::DATA_CONTROL;
use vstd::prelude::*;

verus! {

/// Bit depth of the samples of every session.
pub const BIT_DEPTH: u32 = 32;

/// What a control frame tells the receiver.
#[derive(Clone, Copy, Debug, PartialEq, Eq, Structural)]
pub struct FormatAnnouncement {
    pub bit_depth: u32,
    pub sample_rate: u32,
    pub buffer_size: u16,
}

/// The ASCII digit for `d`, which is below ten.
pub open spec fn digit(d: nat) -> u8
    recommends
        d < 10,
{
    (48 + d) as u8
}

/// Decimal text of `n`: no sign, no leading zero, a single `0` for zero.
pub open spec fn decimal(n: nat) -> Seq<u8>
    decreases n,
{
    if n < 10 {
        seq![digit(n)]
    } else {
        decimal(n / 10).push(digit(n % 10))
    }
}

/// The text of a control frame: three decimal numbers, one space between
/// neighbours.
pub open spec fn control_text(a: FormatAnnouncement) -> Seq<u8> {
    decimal(a.bit_depth as nat) + seq![32u8] + decimal(a.sample_rate as nat) + seq![32u8]
        + decimal(a.buffer_size as nat)
}

/// The control frame for `a`.
pub open spec fn control_frame_of(a: FormatAnnouncement) -> Seq<u8> {
    seq![DATA_CONTROL] + control_text(a)
}

/// The announcement made for a stream of `rate` samples a second to a
/// receiver that buffers `buffer_size`.
pub open spec fn announcement(rate: u32, buffer_size: u16) -> FormatAnnouncement {
    FormatAnnouncement { bit_depth: BIT_DEPTH, sample_rate: rate, buffer_size }
}

/// Appends the decimal text of `n` to `out`.
pub fn push_decimal(out: &mut Vec<u8>, n: u32)
    ensures
        final(out)@ == old(out)@ + decimal(n as nat),
    decreases n,
{
    if n >= 10 {
        push_decimal(out, n / 10);
    }
    let d: u8 = (n % 10) as u8;
    out.push(48 + d);
    assert(out@ =~= old(out)@ + decimal(n as nat));
}

impl FormatAnnouncement {
    /// Builds the control frame of this announcement.
    pub fn to_frame(&self) -> (frame: Vec<u8>)
        ensures
            frame@ == control_frame_of(*self),
    {
        let mut frame: Vec<u8> = Vec::new();
        frame.push(DATA_CONTROL);
        push_decimal(&mut frame, self.bit_depth);
        frame.push(32u8);
        push_decimal(&mut frame, self.sample_rate);
        frame.push(32u8);
        push_decimal(&mut frame, self.buffer_size as u32);
        assert(frame@ =~= control_frame_of(*self));
        frame
    }
}

/// Builds the control frame that announces 32-bit samples at `rate` to a
/// receiver that buffers `buffer_size`.
pub fn control_frame(rate: u32, buffer_size: u16) -> (frame: Vec<u8>)
    ensures
        frame@ == control_frame_of(announcement(rate, buffer_size)),
{
    let a = FormatAnnouncement { bit_depth: BIT_DEPTH, sample_rate: rate, buffer_size };
    a.to_frame()
}

/// Kind of parameter that a backend notification is about.
#[derive(Clone, Copy, Debug, PartialEq, Eq, Structural)]
pub enum ParamId {
    /// The format that the stream has been given.
    Format,
    /// Anything else: properties, latency, a list of formats on offer.
    Other,
}

/// Media type of a format object.
#[derive(Clone, Copy, Debug, PartialEq, Eq, Structural)]
pub enum MediaType {
    Unknown,
    Audio,
    Video,
    Image,
    Binary,
    Stream,
    Application,
}

/// Media subtype of a format object.
#[derive(Clone, Copy, Debug, PartialEq, Eq, Structural)]
pub enum MediaSubtype {
    Unknown,
    /// Linear, uncompressed samples.
    Raw,
    Dsp,
    /// Any encoded or otherwise packaged form.
    Other,
}

/// Media type and subtype of a format object.
#[derive(Clone, Copy, Debug, PartialEq, Eq, Structural)]
pub struct MediaKind {
    pub media_type: MediaType,
    pub media_subtype: MediaSubtype,
}

/// Sample rate and channel count of a raw audio format.
#[derive(Clone, Copy, Debug, PartialEq, Eq, Structural)]
pub struct AudioInfo {
    pub rate: u32,
    pub channels: u32,
}

/// What a backend's format object holds, as far as the announcer reads it.
#[derive(Clone, Copy, Debug, PartialEq, Eq, Structural)]
pub struct FormatParam {
    /// Media type and subtype, or `None` where the object is no format.
    pub kind: Option<MediaKind>,
    /// The raw audio description, or `None` where the object has none.
    pub audio: Option<AudioInfo>,
}

/// The format of the running session, as last reported by the backend.
#[derive(Clone, Copy, Debug, PartialEq, Eq, Structural)]
pub struct UserData {
    pub format: AudioInfo,
}

/// A notification is acted on when it carries a format object, is about the
/// stream's format, and that format is raw audio.
pub open spec fn accepts(id: ParamId, param: Option<&FormatParam>) -> bool {
    &&& param is Some
    &&& id == ParamId::Format
    &&& param->0.kind == Some(
        MediaKind { media_type: MediaType::Audio, media_subtype: MediaSubtype::Raw },
    )
}

/// Tells whether a notification is acted on: see [`accepts`].
pub fn is_accepted(id: ParamId, param: Option<&FormatParam>) -> (accepted: bool)
    ensures
        accepted == accepts(id, param),
{
    // A missing object means that the format is being cleared.
    let param = match param {
        Some(param) => param,
        None => {
            return false;
        },
    };
    match id {
        ParamId::Format => {},
        ParamId::Other => {
            return false;
        },
    }
    // Only raw audio is accepted.
    match param.kind {
        Some(kind) => kind.media_type == MediaType::Audio && kind.media_subtype
            == MediaSubtype::Raw,
        None => false,
    }
}

/// Reacts to a parameter notification of the backend.
///
/// An accepted notification (see [`accepts`]) replaces the session's format
/// by the one reported and yields the control frame to be sent, built from
/// the new rate and `buf_size`. Every other notification changes nothing and
/// yields no frame. An accepted notification must carry its audio
/// description.
pub fn handle_param_change(
    id: ParamId,
    user_data: &mut UserData,
    param: Option<&FormatParam>,
    buf_size: u16,
) -> (frame: Option<Vec<u8>>)
    requires
        accepts(id, param) ==> param->0.audio is Some,
    ensures
        frame is Some <==> accepts(id, param),
        accepts(id, param) ==> {
            &&& final(user_data).format == param->0.audio->0
            &&& frame->0@ == control_frame_of(announcement(param->0.audio->0.rate, buf_size))
        },
        !accepts(id, param) ==> *final(user_data) == *old(user_data),
{
    if !is_accepted(id, param) {
        return None;
    }
    let audio = match param {
        Some(param) => match param.audio {
            Some(audio) => audio,
            None => {
                return None;
            },
        },
        None => {
            return None;
        },
    };
    user_data.format = audio;
    Some(control_frame(audio.rate, buf_size))
}

} // verus!
