//! Client-side logic for a live track-synchronization protocol: the wire
//! codec, the command table, the handshake check, the dispatch of inbound
//! commands against an in-memory timeline, and the outbound frame encoders.
//!
//! The actual socket handling lives outside this crate; everything here works
//! on plain bytes and values, so that the protocol rules themselves are
//! verified.

use vstd::prelude::*;

pub mod device;
pub mod dispatch;
pub mod handshake;
pub mod sender;
pub mod utils;

verus! {

/// The closed set of command kinds carried by the one-byte command prefix.
///
/// `NOOP` stands for every byte outside the known codes: the protocol
/// tolerates unknown commands instead of failing on them.
#[derive(Clone, Copy, PartialEq, Eq, Structural, Debug)]
pub enum SyncCmd {
    SetKey,
    DeleteKey,
    GetTrack,
    SetRow,
    Pause,
    SaveTracks,
    NOOP,
}

/// Everything that can go wrong while talking to the editor.
#[derive(Clone, Copy, PartialEq, Eq, Structural, Debug)]
pub enum SyncError {
    NotConnected,
    CouldNotConnect,
    BadServerGreeting,
    CantParseGreeting,
    CouldNotReadFromServer,
    TrackNotFound,
    NoTracks,
}

} // verus!
