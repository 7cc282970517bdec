//! Core logic of a low-latency, many-to-many voice conferencing tool.
//!
//! A group of participants stream captured microphone audio to a central
//! relay, which fans each participant's audio out to all other participants.
//! Each participant plays back the received streams and shows a terminal UI
//! listing peers and who is currently speaking.
//!
//! This crate holds the verified core: the wire protocol codec, the relay
//! membership and fan-out rules, the client coordinator routing, the
//! voice-activity detection with hangover, and the terminal UI view model.
//! Socket, audio-device and terminal I/O live outside, in thin adapters that
//! call into this crate with plain values.
use vstd::prelude::*;

pub mod audio;
pub mod channel_util;
pub mod client;
pub mod coordinator;
pub mod pulseaudio;
pub mod server;
pub mod tui;

verus! {

/// Samples per second, shared by capture, codec and playback.
pub const SAMPLE_RATE: u32 = 48000;

/// Interleaved channels per sample frame.
pub const CHANNELS: usize = 2;

/// Bytes in one 20 ms block of stereo 48 kHz signed 16-bit PCM.
pub const BUF_SIZE: u32 = 3840;

/// Samples per channel in one 20 ms block.
pub const FRAME_SIZE: usize = 960;

/// An (IP, UDP port) pair: the unique key for relay membership and for
/// attributing received audio.
#[derive(Clone, Copy, Debug, PartialEq, Eq, Structural)]
pub struct PeerAddr {
    /// IPv4 address as one big-endian integer.
    pub ip: u32,
    /// UDP port.
    pub port: u16,
}

/// The client state the terminal UI shows.
#[derive(Clone, Copy, Debug, PartialEq, Eq, Structural)]
pub struct ClientState {
    pub sending_audio: bool,
    pub connected: bool,
    pub mute: bool,
    pub deafen: bool,
    pub exit: bool,
}

impl Default for ClientState {
    /// The state at startup: disconnected, silent, all flags off.
    fn default() -> (s: ClientState)
        ensures
            s == (ClientState {
                sending_audio: false,
                connected: false,
                mute: false,
                deafen: false,
                exit: false,
            }),
    {
        ClientState { sending_audio: false, connected: false, mute: false, deafen: false, exit: false }
    }
}

/// The failure kinds the library reports to its callers.
#[derive(Clone, Copy, Debug, PartialEq, Eq, Structural)]
pub enum ErrorKind {
    InitializationError,
    WriteError,
    ReadError,
}

} // verus!
