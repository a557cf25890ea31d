//! Streaming of live PCM audio over an unreliable datagram transport.
//!
//! A continuous stream of raw sample bytes is cut into transfer units, each
//! unit is classified as silent or audible, and each is framed for the wire:
//! an all-zero unit travels as a three-byte length descriptor, anything else
//! verbatim behind a one-byte tag. A change of the capture format is
//! announced with a control frame.
//!
//! Two ways from capture to network are offered, and a program picks one per
//! backend:
//!
//! * the direct path ([`capture`]): the capture callback frames its buffer
//!   and the frames are sent at once over a socket that never blocks; a
//!   datagram that the network cannot take is dropped, and a delivery
//!   without a buffer or without mapped memory ends the process;
//! * the bridged path ([`bridge`]): samples go through a bounded queue that
//!   refuses words when it is full, so that the producer waits rather than
//!   lose samples, and the consumer sends whole transfer units.
//!
//! Sockets, threads and the audio backend stay outside this crate: every
//! function here takes plain values and hands plain values back, and says in
//! its contract exactly which ones.

pub mod announce;
pub mod bridge;
pub mod capture;
pub mod chunker;
pub mod config;
pub mod framing;
pub mod silence;
pub mod transport;

pub use crate::config::Args;
pub use crate::framing::frame;
pub use crate::framing::send_silence;
pub use crate::silence::is_silence;
