//! The direct capture path: the backend's callbacks chunk, classify and
//! frame what they are given, and the frames are sent as they come.
//!
//! Nothing is queued between capture and network here. What a callback
//! returns is the list of datagrams to send, in order; the caller sends them
//! before it returns to the backend.

use crate::announce::handle_param_change;
use crate::announce::accepts;
use crate::announce::announcement;
use crate::announce::control_frame_of;
use crate::announce::AudioInfo;
use crate::announce::FormatParam;
use crate::announce::ParamId;
use crate::announce::UserData;
use crate::chunker::chunk_at;
use crate::chunker::chunk_count;
use crate::chunker::chunks;
use crate::chunker::lemma_chunk_coverage;
use crate::chunker::Chunker;
use crate::config::Args;
use crate::framing::frame;
use crate::framing::frame_of;
use crate::framing::CHUNK_SIZE;
use vstd::prelude::*;
use vstd::slice::slice_subrange;

verus! {

/// Exit status of a process that stops on a fatal error.
pub const EXIT_FAILURE: i32 = 1;

/// The frames of all chunks of `buf`, in the buffer's byte order.
pub open spec fn frames_of(buf: Seq<u8>, unit: nat) -> Seq<Seq<u8>> {
    Seq::new(chunk_count(buf.len(), unit), |i: int| frame_of(chunk_at(buf, unit, i as nat)))
}

/// The byte sequences that a list of datagrams holds.
pub open spec fn views(datagrams: Seq<Vec<u8>>) -> Seq<Seq<u8>> {
    Seq::new(datagrams.len(), |i: int| datagrams[i]@)
}

/// Frame `i` is the frame of chunk `i`, and there is one frame to a chunk.
pub proof fn lemma_frames_follow_chunks(buf: Seq<u8>, unit: nat)
    ensures
        frames_of(buf, unit).len() == chunks(buf, unit).len(),
        forall|i: int|
            0 <= i < chunks(buf, unit).len() ==> #[trigger] frames_of(buf, unit)[i] == frame_of(
                chunks(buf, unit)[i],
            ),
{
}

/// No datagram is longer than the transfer unit and its tag.
pub proof fn lemma_datagram_ceiling(buf: Seq<u8>, unit: nat, i: int)
    requires
        unit >= 2,
        0 <= i < frames_of(buf, unit).len(),
    ensures
        1 <= frames_of(buf, unit)[i].len() <= unit + 1,
{
    lemma_chunk_coverage(buf, unit);
    crate::chunker::lemma_chunk_lengths(buf, unit, i as nat);
}

/// Chunks `samples` by `unit` and frames every chunk.
pub fn frames(samples: &[u8], unit: usize) -> (out: Vec<Vec<u8>>)
    requires
        unit > 0,
    ensures
        views(out@) == frames_of(samples@, unit as nat),
{
    let mut chunker = Chunker::new(samples, unit);
    let mut out: Vec<Vec<u8>> = Vec::new();
    loop
        invariant
            chunker.source() == samples@,
            chunker.unit() == unit,
            chunker.emitted() == out@.len(),
            chunker.emitted() <= chunk_count(samples@.len(), unit as nat),
            forall|i: int|
                0 <= i < out@.len() ==> (#[trigger] out@[i])@ == frame_of(
                    chunk_at(samples@, unit as nat, i as nat),
                ),
        ensures
            out@.len() == chunk_count(samples@.len(), unit as nat),
        decreases chunk_count(samples@.len(), unit as nat) - chunker.emitted(),
    {
        match chunker.next_chunk() {
            Some(chunk) => {
                out.push(frame(chunk));
            },
            None => {
                break ;
            },
        }
    }
    assert(views(out@) =~= frames_of(samples@, unit as nat));
    out
}

/// One block of a capture buffer.
pub struct DataBlock<'a> {
    /// Number of leading bytes of `data` that hold samples.
    pub size: u32,
    /// The mapped memory of the block, if the backend mapped any.
    pub data: Option<&'a [u8]>,
}

/// One delivery of the capture backend.
pub struct CaptureBuffer<'a> {
    pub datas: Vec<DataBlock<'a>>,
}

/// Why a delivery could not be processed.
#[derive(Clone, Copy, Debug, PartialEq, Eq, Structural)]
pub enum CaptureError {
    /// The backend had no buffer to hand out.
    NoBuffers,
    /// The buffer's first block has no memory mapped.
    NoData,
}

impl CaptureError {
    /// The diagnostic line for this error.
    pub fn message(&self) -> (text: &'static str)
        ensures
            text@ == match *self {
                CaptureError::NoBuffers => "no buffers"@,
                CaptureError::NoData => "no data"@,
            },
    {
        match self {
            CaptureError::NoBuffers => "no buffers",
            CaptureError::NoData => "no data",
        }
    }
}

/// The block's valid range lies within its memory.
pub open spec fn block_in_bounds(block: DataBlock) -> bool {
    block.data matches Some(data) ==> block.size <= data@.len()
}

/// A delivery whose first block, if there is one, is in bounds.
pub open spec fn delivery_in_bounds(buffer: Option<&CaptureBuffer>) -> bool {
    buffer matches Some(b) ==> (b.datas@.len() > 0 ==> block_in_bounds(b.datas@[0]))
}

/// Tells whether a delivery is in bounds: see [`delivery_in_bounds`].
pub fn in_bounds(buffer: Option<&CaptureBuffer>) -> (ok: bool)
    ensures
        ok == delivery_in_bounds(buffer),
{
    match buffer {
        None => true,
        Some(buffer) => {
            if buffer.datas.len() == 0 {
                true
            } else {
                let block = &buffer.datas[0];
                match block.data {
                    None => true,
                    Some(data) => block.size as usize <= data.len(),
                }
            }
        },
    }
}

/// What a delivery gives: an error where there is no buffer or its first
/// block has no memory, no frame for a buffer without blocks, and else the
/// frames of the valid range of the first block, cut at [`CHUNK_SIZE`].
pub open spec fn capture_of(buffer: Option<&CaptureBuffer>) -> Result<Seq<Seq<u8>>, CaptureError> {
    match buffer {
        None => Err(CaptureError::NoBuffers),
        Some(b) => if b.datas@.len() == 0 {
            Ok(Seq::empty())
        } else {
            match b.datas@[0].data {
                None => Err(CaptureError::NoData),
                Some(data) => Ok(
                    frames_of(data@.take(b.datas@[0].size as int), CHUNK_SIZE as nat),
                ),
            }
        },
    }
}

/// Processes one delivery of the backend: see [`capture_of`]. The datagrams
/// come back in the order in which they are to be sent.
pub fn capture(buffer: Option<&CaptureBuffer>) -> (sent: Result<Vec<Vec<u8>>, CaptureError>)
    requires
        delivery_in_bounds(buffer),
    ensures
        match sent {
            Ok(datagrams) => capture_of(buffer) == Ok::<Seq<Seq<u8>>, CaptureError>(
                views(datagrams@),
            ),
            Err(e) => capture_of(buffer) == Err::<Seq<Seq<u8>>, CaptureError>(e),
        },
{
    let buffer = match buffer {
        Some(buffer) => buffer,
        None => {
            return Err(CaptureError::NoBuffers);
        },
    };
    if buffer.datas.len() == 0 {
        let none: Vec<Vec<u8>> = Vec::new();
        assert(views(none@) =~= Seq::<Seq<u8>>::empty());
        return Ok(none);
    }
    let block = &buffer.datas[0];
    let end = block.size as usize;
    let samples = match block.data {
        Some(data) => data,
        None => {
            return Err(CaptureError::NoData);
        },
    };
    let valid = slice_subrange(samples, 0, end);
    assert(valid@ =~= samples@.take(end as int));
    Ok(frames(valid, CHUNK_SIZE))
}

/// State of a direct session: the format last reported by the backend and
/// the settings that the callbacks need.
pub struct Session {
    /// The format of the session; all zero until the backend reports one.
    pub user_data: UserData,
    /// Buffer size to announce with every format.
    pub buffer_size: u16,
    /// Sample rate to ask the backend for, if any.
    pub rate: Option<u32>,
}

/// What the caller does after a delivery has been processed.
pub enum Delivery {
    /// Send these datagrams, in order, and go on.
    Send(Vec<Vec<u8>>),
    /// Report the error and end the process with this status.
    Exit { code: i32, error: CaptureError },
}

/// Sets a direct session up from the command line's settings: no format
/// yet, the receiver's buffer size, and the rate to ask for unless that is
/// left to the backend.
pub fn stream(args: &Args) -> (session: Session)
    ensures
        session.user_data.format == (AudioInfo { rate: 0, channels: 0 }),
        session.buffer_size == args.buffer,
        session.rate == if args.rate == 0 {
            None
        } else {
            Some(args.rate)
        },
{
    Session {
        user_data: UserData { format: AudioInfo { rate: 0, channels: 0 } },
        buffer_size: args.buffer,
        rate: args.requested_rate(),
    }
}

impl Session {
    /// The backend reports a parameter change: an accepted format replaces
    /// the session's and is announced with the configured buffer size; any
    /// other report is ignored.
    pub fn on_format_changed(&mut self, id: ParamId, param: Option<&FormatParam>) -> (frame:
        Option<Vec<u8>>)
        requires
            accepts(id, param) ==> param->0.audio is Some,
        ensures
            final(self).buffer_size == old(self).buffer_size,
            final(self).rate == old(self).rate,
            frame is Some <==> accepts(id, param),
            accepts(id, param) ==> {
                &&& final(self).user_data.format == param->0.audio->0
                &&& frame->0@ == control_frame_of(
                    announcement(param->0.audio->0.rate, old(self).buffer_size),
                )
            },
            !accepts(id, param) ==> final(self).user_data == old(self).user_data,
    {
        let buffer_size = self.buffer_size;
        handle_param_change(id, &mut self.user_data, param, buffer_size)
    }

    /// The backend delivers a buffer: its frames are to be sent, and a
    /// delivery that cannot be processed ends the process.
    pub fn on_buffer_ready(&self, buffer: Option<&CaptureBuffer>) -> (next: Delivery)
        requires
            delivery_in_bounds(buffer),
        ensures
            match next {
                Delivery::Send(datagrams) => capture_of(buffer) == Ok::<
                    Seq<Seq<u8>>,
                    CaptureError,
                >(views(datagrams@)),
                Delivery::Exit { code, error } => code == EXIT_FAILURE && capture_of(buffer)
                    == Err::<Seq<Seq<u8>>, CaptureError>(error),
            },
    {
        match capture(buffer) {
            Ok(datagrams) => Delivery::Send(datagrams),
            Err(error) => Delivery::Exit { code: EXIT_FAILURE, error },
        }
    }
}

} // verus!
