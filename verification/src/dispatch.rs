//! Inbound command dispatch: the payload layout of each command kind, the
//! decoder from wire bytes to a command value, the mutation each command
//! performs on the timeline, and the per-tick poll that drains a batch of
//! buffered bytes in arrival order.

use vstd::prelude::*;
use crate::{SyncCmd, SyncError};
use crate::utils::{be_u32_of, code_cmd_spec, code_to_cmd, ms_of_row_sat};
use crate::utils::net_to_u32;
use crate::device::{DeviceView, SyncDevice, TrackKey};

verus! {

/// A command decoded from the wire, payload included. `GetTrack` and
/// `SaveTracks` are recognized but carry no inbound effect; `NoOp` stands
/// for every unknown command byte.
#[derive(Clone, Copy, PartialEq, Eq, Structural, Debug)]
pub enum Command {
    SetKey { track_index: u32, row: u32, value_bits: u32, key_type: u8 },
    DeleteKey { track_index: u32, row: u32 },
    GetTrack,
    SetRow { row: u32 },
    Pause { flag: u8 },
    SaveTracks,
    NoOp,
}

/// How many payload bytes follow the command byte of each command kind.
pub open spec fn payload_len_spec(cmd: SyncCmd) -> int {
    match cmd {
        SyncCmd::SetKey => 13,
        SyncCmd::DeleteKey => 8,
        SyncCmd::GetTrack => 0,
        SyncCmd::SetRow => 4,
        SyncCmd::Pause => 1,
        SyncCmd::SaveTracks => 0,
        SyncCmd::NOOP => 0,
    }
}

pub fn payload_len(cmd: &SyncCmd) -> (n: usize)
    ensures
        n == payload_len_spec(*cmd),
{
    match *cmd {
        SyncCmd::SetKey => 13,
        SyncCmd::DeleteKey => 8,
        SyncCmd::GetTrack => 0,
        SyncCmd::SetRow => 4,
        SyncCmd::Pause => 1,
        SyncCmd::SaveTracks => 0,
        SyncCmd::NOOP => 0,
    }
}

/// The command a code byte and its payload bytes stand for. Fields are read
/// in wire order: for SetKey the track index, the row, the value's bit
/// pattern and the interpolation code; for DeleteKey the track index and the
/// row; for SetRow the row; for Pause the flag byte.
pub open spec fn decode_command_spec(code: u8, payload: Seq<u8>) -> Command
    recommends
        payload.len() == payload_len_spec(code_cmd_spec(code)),
{
    match code_cmd_spec(code) {
        SyncCmd::SetKey => Command::SetKey {
            track_index: be_u32_of(payload.subrange(0, 4)),
            row: be_u32_of(payload.subrange(4, 8)),
            value_bits: be_u32_of(payload.subrange(8, 12)),
            key_type: payload[12],
        },
        SyncCmd::DeleteKey => Command::DeleteKey {
            track_index: be_u32_of(payload.subrange(0, 4)),
            row: be_u32_of(payload.subrange(4, 8)),
        },
        SyncCmd::GetTrack => Command::GetTrack,
        SyncCmd::SetRow => Command::SetRow { row: be_u32_of(payload.subrange(0, 4)) },
        SyncCmd::Pause => Command::Pause { flag: payload[0] },
        SyncCmd::SaveTracks => Command::SaveTracks,
        SyncCmd::NOOP => Command::NoOp,
    }
}

/// Decodes the command whose code byte is `code` and whose payload sits in
/// `input` starting at `start`.
pub fn decode_command(code: u8, input: &Vec<u8>, start: usize) -> (cmd: Command)
    requires
        start + payload_len_spec(code_cmd_spec(code)) <= input@.len(),
    ensures
        cmd == decode_command_spec(
            code,
            input@.subrange(start as int, start + payload_len_spec(code_cmd_spec(code))),
        ),
{
    let ghost payload = input@.subrange(
        start as int,
        start + payload_len_spec(code_cmd_spec(code)),
    );
    let n = input.len();
    proof {
        assert(start + payload_len_spec(code_cmd_spec(code)) <= n);
    }
    match code_to_cmd(code) {
        SyncCmd::SetKey => {
            let b0 = [input[start], input[start + 1], input[start + 2], input[start + 3]];
            let b1 = [input[start + 4], input[start + 5], input[start + 6], input[start + 7]];
            let b2 = [input[start + 8], input[start + 9], input[start + 10], input[start + 11]];
            proof {
                assert(b0@ =~= payload.subrange(0, 4));
                assert(b1@ =~= payload.subrange(4, 8));
                assert(b2@ =~= payload.subrange(8, 12));
            }
            Command::SetKey {
                track_index: net_to_u32(&b0),
                row: net_to_u32(&b1),
                value_bits: net_to_u32(&b2),
                key_type: input[start + 12],
            }
        },
        SyncCmd::DeleteKey => {
            let b0 = [input[start], input[start + 1], input[start + 2], input[start + 3]];
            let b1 = [input[start + 4], input[start + 5], input[start + 6], input[start + 7]];
            proof {
                assert(b0@ =~= payload.subrange(0, 4));
                assert(b1@ =~= payload.subrange(4, 8));
            }
            Command::DeleteKey { track_index: net_to_u32(&b0), row: net_to_u32(&b1) }
        },
        SyncCmd::GetTrack => Command::GetTrack,
        SyncCmd::SetRow => {
            let b0 = [input[start], input[start + 1], input[start + 2], input[start + 3]];
            proof {
                assert(b0@ =~= payload.subrange(0, 4));
            }
            Command::SetRow { row: net_to_u32(&b0) }
        },
        SyncCmd::Pause => Command::Pause { flag: input[start] },
        SyncCmd::SaveTracks => Command::SaveTracks,
        SyncCmd::NOOP => Command::NoOp,
    }
}

/// What applying one decoded command does to the timeline: the timeline
/// afterwards, and either whether the command warrants a redraw or the
/// error it is rejected with. A SetKey or DeleteKey whose track index is
/// not strictly below the track count is rejected — with NoTracks when
/// there is no track at all, with TrackNotFound otherwise — and the
/// timeline is left untouched.
pub open spec fn apply_command_spec(c: Command, dev: DeviceView) -> (DeviceView, Result<
    bool,
    SyncError,
>) {
    match c {
        Command::SetKey { track_index, row, value_bits, key_type } => {
            if dev.tracks.len() == 0 {
                (dev, Err(SyncError::NoTracks))
            } else if track_index as int >= dev.tracks.len() {
                (dev, Err(SyncError::TrackNotFound))
            } else {
                let key = TrackKey { row, value_bits, key_type };
                (
                    DeviceView {
                        tracks: dev.tracks.update(
                            track_index as int,
                            dev.tracks[track_index as int].insert(row, key),
                        ),
                        ..dev
                    },
                    Ok(true),
                )
            }
        },
        Command::DeleteKey { track_index, row } => {
            if dev.tracks.len() == 0 {
                (dev, Err(SyncError::NoTracks))
            } else if track_index as int >= dev.tracks.len() {
                (dev, Err(SyncError::TrackNotFound))
            } else {
                (
                    DeviceView {
                        tracks: dev.tracks.update(
                            track_index as int,
                            dev.tracks[track_index as int].remove(row),
                        ),
                        ..dev
                    },
                    Ok(true),
                )
            }
        },
        Command::SetRow { row } => (
            DeviceView { row, time: ms_of_row_sat(row, dev.rps), ..dev },
            Ok(true),
        ),
        Command::Pause { flag } => (DeviceView { paused: flag == 1, ..dev }, Ok(true)),
        Command::GetTrack => (dev, Ok(false)),
        Command::SaveTracks => (dev, Ok(false)),
        Command::NoOp => (dev, Ok(false)),
    }
}

/// Applies one decoded command to the timeline. On an error the timeline is
/// exactly as it was; on success the result says whether the command kind
/// warrants a redraw.
pub fn apply_command(c: &Command, device: &mut SyncDevice) -> (result: Result<bool, SyncError>)
    requires
        old(device).wf(),
    ensures
        final(device).wf(),
        final(device)@ == apply_command_spec(*c, old(device)@).0,
        result == apply_command_spec(*c, old(device)@).1,
{
    match *c {
        Command::SetKey { track_index, row, value_bits, key_type } => {
            let count = device.track_count();
            if count == 0 {
                Err(SyncError::NoTracks)
            } else if track_index as usize >= count {
                Err(SyncError::TrackNotFound)
            } else {
                let key = TrackKey { row, value_bits, key_type };
                device.set_key(track_index as usize, key);
                proof {
                    assert(device@ =~= apply_command_spec(*c, old(device)@).0);
                }
                Ok(true)
            }
        },
        Command::DeleteKey { track_index, row } => {
            let count = device.track_count();
            if count == 0 {
                Err(SyncError::NoTracks)
            } else if track_index as usize >= count {
                Err(SyncError::TrackNotFound)
            } else {
                device.delete_key(track_index as usize, row);
                proof {
                    assert(device@ =~= apply_command_spec(*c, old(device)@).0);
                }
                Ok(true)
            }
        },
        Command::SetRow { row } => {
            device.set_row(row);
            proof {
                assert(device@ =~= apply_command_spec(*c, old(device)@).0);
            }
            Ok(true)
        },
        Command::Pause { flag } => {
            device.set_paused(flag == 1);
            proof {
                assert(device@ =~= apply_command_spec(*c, old(device)@).0);
            }
            Ok(true)
        },
        Command::GetTrack => Ok(false),
        Command::SaveTracks => Ok(false),
        Command::NoOp => Ok(false),
    }
}

/// What one poll over a batch of buffered bytes does, command by command in
/// arrival order. An empty rest of the batch is the normal end. A command
/// byte whose payload is cut off by the end of the stream is an error
/// (CouldNotReadFromServer), distinguished from the normal end; a rejected
/// command aborts the rest of the batch. Either way the commands already
/// applied keep their effect. On success the flag says whether any applied
/// command warrants a redraw.
pub open spec fn poll_spec(input: Seq<u8>, dev: DeviceView, redraw: bool) -> (DeviceView, Result<
    bool,
    SyncError,
>)
    decreases input.len(),
{
    if input.len() == 0 {
        (dev, Ok(redraw))
    } else {
        let cmd = code_cmd_spec(input[0]);
        let plen = payload_len_spec(cmd);
        if input.len() < 1 + plen {
            (dev, Err(SyncError::CouldNotReadFromServer))
        } else {
            let c = decode_command_spec(input[0], input.subrange(1, 1 + plen));
            let step = apply_command_spec(c, dev);
            match step.1 {
                Err(e) => (step.0, Err(e)),
                Ok(b) => poll_spec(input.skip(1 + plen), step.0, redraw || b),
            }
        }
    }
}

/// Drains one batch of buffered bytes against the timeline: every complete
/// command in `input` is decoded and applied, in order. Returns whether any
/// applied command warrants a redraw, or the first error; commands applied
/// before an error keep their effect.
pub fn poll(input: &Vec<u8>, device: &mut SyncDevice) -> (result: Result<bool, SyncError>)
    requires
        old(device).wf(),
    ensures
        final(device).wf(),
        final(device)@ == poll_spec(input@, old(device)@, false).0,
        result == poll_spec(input@, old(device)@, false).1,
{
    let n = input.len();
    let mut pos: usize = 0;
    let mut redraw = false;
    proof {
        assert(input@.skip(0) =~= input@);
    }
    while pos < n
        invariant
            device.wf(),
            pos <= n,
            n == input@.len(),
            poll_spec(input@, old(device)@, false) == poll_spec(
                input@.skip(pos as int),
                device@,
                redraw,
            ),
        decreases n - pos,
    {
        let ghost rest = input@.skip(pos as int);
        let ghost dev0 = device@;
        let ghost redraw0 = redraw;
        let code = input[pos];
        let cmd = code_to_cmd(code);
        let plen = payload_len(&cmd);
        if n - pos - 1 < plen {
            proof {
                assert(rest.len() == n - pos);
                assert(rest.len() < 1 + payload_len_spec(code_cmd_spec(code)));
                assert(poll_spec(rest, dev0, redraw0) == (
                    dev0,
                    Err::<bool, SyncError>(SyncError::CouldNotReadFromServer),
                ));
            }
            return Err(SyncError::CouldNotReadFromServer);
        }
        let c = decode_command(code, input, pos + 1);
        proof {
            assert(rest[0] == code);
            assert(rest.subrange(1, 1 + plen as int) =~= input@.subrange(
                pos + 1,
                pos + 1 + plen as int,
            ));
            assert(c == decode_command_spec(rest[0], rest.subrange(1, 1 + plen as int)));
        }
        let step = apply_command(&c, device);
        match step {
            Ok(b) => {
                redraw = redraw || b;
                proof {
                    assert(rest.skip(1 + plen as int) =~= input@.skip(pos + 1 + plen as int));
                    assert(poll_spec(rest, dev0, redraw0) == poll_spec(
                        rest.skip(1 + plen as int),
                        device@,
                        redraw0 || b,
                    ));
                }
                pos = pos + 1 + plen;
            },
            Err(e) => {
                proof {
                    assert(poll_spec(rest, dev0, redraw0) == (
                        device@,
                        Err::<bool, SyncError>(e),
                    ));
                }
                return Err(e);
            },
        }
    }
    Ok(redraw)
}

/// A command byte outside the known codes is tolerated as a NoOp: it never
/// raises an error and never mutates the timeline — a batch that starts
/// with it polls exactly as the batch without it, wherever in a stream it
/// turns up. In particular, polling such a byte alone returns Ok(false)
/// and leaves the timeline as it was.
pub proof fn lemma_unknown_byte_tolerated(code: u8, rest: Seq<u8>, dev: DeviceView, redraw: bool)
    requires
        code > 5,
    ensures
        poll_spec(seq![code] + rest, dev, redraw) == poll_spec(rest, dev, redraw),
{
    let input = seq![code] + rest;
    assert(input[0] == code);
    assert(input.skip(1) =~= rest);
}

/// Polling never reorders or batches across ticks: when one poll drains a
/// first batch cleanly, draining a second batch afterwards has exactly the
/// effect of draining the two batches concatenated in one poll — commands
/// take effect in arrival order, wherever the tick boundary falls between
/// commands.
pub proof fn lemma_poll_batches_compose(
    first: Seq<u8>,
    second: Seq<u8>,
    dev: DeviceView,
    redraw: bool,
    mid: DeviceView,
    mid_redraw: bool,
)
    requires
        poll_spec(first, dev, redraw) == (mid, Ok::<bool, SyncError>(mid_redraw)),
    ensures
        poll_spec(first + second, dev, redraw) == poll_spec(second, mid, mid_redraw),
    decreases first.len(),
{
    if first.len() == 0 {
        assert(first + second =~= second);
    } else {
        let cmd = code_cmd_spec(first[0]);
        let plen = payload_len_spec(cmd);
        assert(first.len() >= 1 + plen);
        let c = decode_command_spec(first[0], first.subrange(1, 1 + plen));
        let step = apply_command_spec(c, dev);
        match step.1 {
            Err(e) => {
                assert(false);
            },
            Ok(b) => {
                assert((first + second)[0] == first[0]);
                assert((first + second).subrange(1, 1 + plen) =~= first.subrange(1, 1 + plen));
                assert((first + second).skip(1 + plen) =~= first.skip(1 + plen) + second);
                lemma_poll_batches_compose(
                    first.skip(1 + plen),
                    second,
                    step.0,
                    redraw || b,
                    mid,
                    mid_redraw,
                );
            },
        }
    }
}

/// The boundary of track addressing: on a timeline that has tracks, a
/// SetKey whose track index equals the track count is rejected as
/// TrackNotFound — the valid indices are strictly below the count — and the
/// timeline is untouched.
pub proof fn lemma_set_key_boundary(dev: DeviceView, row: u32, value_bits: u32, key_type: u8)
    requires
        0 < dev.tracks.len() <= u32::MAX,
    ensures
        apply_command_spec(
            Command::SetKey {
                track_index: dev.tracks.len() as u32,
                row,
                value_bits,
                key_type,
            },
            dev,
        ) == (dev, Err::<bool, SyncError>(SyncError::TrackNotFound)),
{
}

} // verus!
