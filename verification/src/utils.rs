//! Wire codec and command table: fixed-width big-endian conversions, the
//! little-endian variants used for local representations, the mapping between
//! command bytes and command kinds, and the row-to-milliseconds formula.

use vstd::prelude::*;
use crate::SyncCmd;

verus! {

/// The u32 encoded by four bytes in network (big-endian) order.
pub open spec fn be_u32_of(b: Seq<u8>) -> u32 {
    ((b[0] as u32) << 24) | ((b[1] as u32) << 16) | ((b[2] as u32) << 8) | (b[3] as u32)
}

/// The four network-order (big-endian) bytes of a u32.
pub open spec fn u32_be_bytes(n: u32) -> Seq<u8> {
    seq![(n >> 24) as u8, (n >> 16) as u8, (n >> 8) as u8, n as u8]
}

/// The four little-endian bytes of a u32.
pub open spec fn u32_le_bytes(n: u32) -> Seq<u8> {
    seq![n as u8, (n >> 8) as u8, (n >> 16) as u8, (n >> 24) as u8]
}

/// The byte code a command kind is sent as.
pub open spec fn cmd_code_spec(cmd: SyncCmd) -> u8 {
    match cmd {
        SyncCmd::SetKey => 0,
        SyncCmd::DeleteKey => 1,
        SyncCmd::GetTrack => 2,
        SyncCmd::SetRow => 3,
        SyncCmd::Pause => 4,
        SyncCmd::SaveTracks => 5,
        SyncCmd::NOOP => 255,
    }
}

/// The command kind a received byte code stands for; unknown codes are NOOP.
pub open spec fn code_cmd_spec(code: u8) -> SyncCmd {
    if code == 0 {
        SyncCmd::SetKey
    } else if code == 1 {
        SyncCmd::DeleteKey
    } else if code == 2 {
        SyncCmd::GetTrack
    } else if code == 3 {
        SyncCmd::SetRow
    } else if code == 4 {
        SyncCmd::Pause
    } else if code == 5 {
        SyncCmd::SaveTracks
    } else {
        SyncCmd::NOOP
    }
}

pub fn cmd_to_code(cmd: &SyncCmd) -> (code: u8)
    ensures
        code == cmd_code_spec(*cmd),
{
    match *cmd {
        SyncCmd::SetKey => 0,
        SyncCmd::DeleteKey => 1,
        SyncCmd::GetTrack => 2,
        SyncCmd::SetRow => 3,
        SyncCmd::Pause => 4,
        SyncCmd::SaveTracks => 5,
        SyncCmd::NOOP => 255,
    }
}

pub fn code_to_cmd(code: u8) -> (cmd: SyncCmd)
    ensures
        cmd == code_cmd_spec(code),
{
    match code {
        0 => SyncCmd::SetKey,
        1 => SyncCmd::DeleteKey,
        2 => SyncCmd::GetTrack,
        3 => SyncCmd::SetRow,
        4 => SyncCmd::Pause,
        5 => SyncCmd::SaveTracks,
        _ => SyncCmd::NOOP,
    }
}

/// Every byte outside the six known command codes decodes to NOOP: the
/// protocol tolerates unknown commands rather than erroring on them.
pub proof fn lemma_unknown_code_is_noop(code: u8)
    requires
        code > 5,
    ensures
        code_cmd_spec(code) == SyncCmd::NOOP,
{
}

/// Decoding a known command's code byte gives that command back.
pub proof fn lemma_cmd_code_round_trip(cmd: SyncCmd)
    ensures
        code_cmd_spec(cmd_code_spec(cmd)) == cmd,
{
}

/// Convert 4 bytes in network byte order (big-endian) to a u32
pub fn net_to_u32(bytes: &[u8; 4]) -> (n: u32)
    ensures
        n == be_u32_of(bytes@),
{
    proof {
        let b0 = bytes@[0];
        let b1 = bytes@[1];
        let b2 = bytes@[2];
        let b3 = bytes@[3];
        assert(((b0 as u32) << 24) <= 0xFF00_0000 && ((b1 as u32) << 16) <= 0xFF_0000
            && ((b2 as u32) << 8) <= 0xFF00) by (bit_vector);
    }

    let mut n: u32 = 0;

    n += (bytes[0] as u32) << 24;
    n += (bytes[1] as u32) << 16;
    n += (bytes[2] as u32) << 8;
    n += bytes[3] as u32;

    proof {
        let b0 = bytes@[0];
        let b1 = bytes@[1];
        let b2 = bytes@[2];
        let b3 = bytes@[3];
        assert(((b0 as u32) << 24) + ((b1 as u32) << 16) + ((b2 as u32) << 8) + (b3 as u32)
            == ((b0 as u32) << 24) | ((b1 as u32) << 16) | ((b2 as u32) << 8) | (b3 as u32))
            by (bit_vector);
    }

    n
}

/// Convert an u32 to 4 bytes in network byte order (big-endian)
pub fn u32_to_net(n: u32) -> (bytes: [u8; 4])
    ensures
        bytes@ == u32_be_bytes(n),
{
    let bytes = [
        ((n >> 24) & 0xFF) as u8,
        ((n >> 16) & 0xFF) as u8,
        ((n >> 8) & 0xFF) as u8,
        (n & 0xFF) as u8,
    ];

    proof {
        assert(((n >> 24) & 0xFF) as u8 == (n >> 24) as u8
            && ((n >> 16) & 0xFF) as u8 == (n >> 16) as u8
            && ((n >> 8) & 0xFF) as u8 == (n >> 8) as u8
            && (n & 0xFF) as u8 == n as u8) by (bit_vector);
        assert(bytes@ =~= u32_be_bytes(n));
    }

    bytes
}

/// Convert an u32 to 4 bytes as little-endian
pub fn u32_to_le(n: u32) -> (bytes: [u8; 4])
    ensures
        bytes@ == u32_le_bytes(n),
{
    let bytes = [
        (n & 0xFF) as u8,
        ((n >> 8) & 0xFF) as u8,
        ((n >> 16) & 0xFF) as u8,
        ((n >> 24) & 0xFF) as u8,
    ];

    proof {
        assert(((n >> 24) & 0xFF) as u8 == (n >> 24) as u8
            && ((n >> 16) & 0xFF) as u8 == (n >> 16) as u8
            && ((n >> 8) & 0xFF) as u8 == (n >> 8) as u8
            && (n & 0xFF) as u8 == n as u8) by (bit_vector);
        assert(bytes@ =~= u32_le_bytes(n));
    }

    bytes
}

/// Decoding the big-endian encoding of any u32 yields it back. The same
/// holds for a 32-bit float carried as its raw bit pattern, since the wire
/// treats such a value as exactly these four bytes.
pub proof fn lemma_u32_net_round_trip(n: u32)
    ensures
        be_u32_of(u32_be_bytes(n)) == n,
{
    assert((((n >> 24) as u8 as u32) << 24) | (((n >> 16) as u8 as u32) << 16)
        | (((n >> 8) as u8 as u32) << 8) | (n as u8 as u32) == n) by (bit_vector);
}

/// Encoding the u32 decoded from any four big-endian bytes yields the same
/// four bytes back.
pub proof fn lemma_net_u32_round_trip(b: Seq<u8>)
    requires
        b.len() == 4,
    ensures
        u32_be_bytes(be_u32_of(b)) == b,
{
    let b0 = b[0];
    let b1 = b[1];
    let b2 = b[2];
    let b3 = b[3];
    let n = be_u32_of(b);
    assert(n == ((b0 as u32) << 24) | ((b1 as u32) << 16) | ((b2 as u32) << 8) | (b3 as u32));
    assert({
        let m = ((b0 as u32) << 24) | ((b1 as u32) << 16) | ((b2 as u32) << 8) | (b3 as u32);
        (m >> 24) as u8 == b0 && (m >> 16) as u8 == b1 && (m >> 8) as u8 == b2 && m as u8 == b3
    }) by (bit_vector);
    assert(u32_be_bytes(n) =~= b);
}

/// The milliseconds a row position corresponds to at a given rate, as a
/// mathematical value: row / rps seconds, in milliseconds, rounded to the
/// nearest millisecond with halves rounding up.
pub open spec fn ms_of_row(row: int, rps: int) -> int
    recommends
        rps > 0,
{
    (2000 * row + rps) / (2 * rps)
}

/// `ms_of_row` clamped to what a u32 time field can hold.
pub open spec fn ms_of_row_sat(row: u32, rps: u32) -> u32
    recommends
        rps > 0,
{
    if ms_of_row(row as int, rps as int) > u32::MAX {
        u32::MAX
    } else {
        ms_of_row(row as int, rps as int) as u32
    }
}

/// Returns the time in milliseconds based on the row and rps (rows per
/// second), rounded to the nearest millisecond; a result beyond the u32
/// range saturates at the maximum.
pub fn ms_from_row_rps(row: u32, rps: u32) -> (ms: u32)
    requires
        rps > 0,
    ensures
        ms == ms_of_row_sat(row, rps),
{
    let t: u64 = (2000u64 * (row as u64) + (rps as u64)) / (2u64 * (rps as u64));
    if t > 0xFFFF_FFFFu64 {
        u32::MAX
    } else {
        t as u32
    }
}

} // verus!
