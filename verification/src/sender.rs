//! Outbound frame encoders: the client-to-server messages that declare
//! track names and report the local playback row. Only the bytes are built
//! here; writing them to the peer is the caller's business.

use vstd::prelude::*;
use crate::SyncCmd;
use crate::utils::{cmd_code_spec, cmd_to_code, u32_be_bytes, u32_to_net};

verus! {

/// The frame that reports the local playback row: the SetRow code byte
/// followed by the row as four big-endian bytes.
pub open spec fn row_frame_spec(row: u32) -> Seq<u8> {
    seq![cmd_code_spec(SyncCmd::SetRow)] + u32_be_bytes(row)
}

/// The frame that asks the server for one track: the GetTrack code byte,
/// the big-endian byte length of the name, then the name's bytes.
pub open spec fn track_name_frame_spec(name: Seq<u8>) -> Seq<u8>
    recommends
        name.len() <= u32::MAX,
{
    seq![cmd_code_spec(SyncCmd::GetTrack)] + u32_be_bytes(name.len() as u32) + name
}

/// The message that declares a whole list of track names: one GetTrack
/// frame per name, in the given order — the server answers with track
/// indices in that same order.
pub open spec fn track_names_message_spec(names: Seq<Seq<u8>>) -> Seq<u8>
    decreases names.len(),
{
    if names.len() == 0 {
        Seq::empty()
    } else {
        track_name_frame_spec(names[0]) + track_names_message_spec(names.skip(1))
    }
}

proof fn lemma_track_names_message_snoc(names: Seq<Seq<u8>>, name: Seq<u8>)
    ensures
        track_names_message_spec(names.push(name)) == track_names_message_spec(names)
            + track_name_frame_spec(name),
    decreases names.len(),
{
    if names.len() == 0 {
        let p = names.push(name);
        assert(p[0] == name);
        assert(p.skip(1) =~= Seq::<Seq<u8>>::empty());
        assert(track_names_message_spec(p.skip(1)) == Seq::<u8>::empty());
        assert(track_names_message_spec(p) == track_name_frame_spec(name) + Seq::<u8>::empty());
        assert(track_name_frame_spec(name) + Seq::<u8>::empty() =~= track_name_frame_spec(name));
        assert(track_names_message_spec(names) + track_name_frame_spec(name)
            =~= track_name_frame_spec(name));
    } else {
        assert(names.push(name).skip(1) =~= names.skip(1).push(name));
        lemma_track_names_message_snoc(names.skip(1), name);
        assert(track_names_message_spec(names.push(name)) == track_name_frame_spec(names[0]) + (
        track_names_message_spec(names.skip(1)) + track_name_frame_spec(name)));
        assert(track_name_frame_spec(names[0]) + (track_names_message_spec(names.skip(1))
            + track_name_frame_spec(name)) =~= (track_name_frame_spec(names[0])
            + track_names_message_spec(names.skip(1))) + track_name_frame_spec(name));
    }
}

/// Encodes the frame that reports the current row to the server.
pub fn row_frame(row: u32) -> (frame: Vec<u8>)
    ensures
        frame@ == row_frame_spec(row),
{
    let mut frame: Vec<u8> = Vec::new();
    frame.push(cmd_to_code(&SyncCmd::SetRow));
    let row_bytes = u32_to_net(row);
    frame.push(row_bytes[0]);
    frame.push(row_bytes[1]);
    frame.push(row_bytes[2]);
    frame.push(row_bytes[3]);
    proof {
        assert(frame@ =~= row_frame_spec(row));
    }
    frame
}

/// Encodes the frame that declares one track name to the server.
pub fn track_name_frame(name: &Vec<u8>) -> (frame: Vec<u8>)
    requires
        name@.len() <= u32::MAX,
    ensures
        frame@ == track_name_frame_spec(name@),
{
    let mut frame: Vec<u8> = Vec::new();
    frame.push(cmd_to_code(&SyncCmd::GetTrack));
    let len_bytes = u32_to_net(name.len() as u32);
    frame.push(len_bytes[0]);
    frame.push(len_bytes[1]);
    frame.push(len_bytes[2]);
    frame.push(len_bytes[3]);
    let n = name.len();
    let mut i: usize = 0;
    while i < n
        invariant
            i <= n,
            n == name@.len() <= u32::MAX,
            frame@ == seq![cmd_code_spec(SyncCmd::GetTrack)] + u32_be_bytes(n as u32)
                + name@.subrange(0, i as int),
        decreases n - i,
    {
        frame.push(name[i]);
        proof {
            assert(name@.subrange(0, i + 1) =~= name@.subrange(0, i as int).push(name@[i as int]));
            assert(frame@ =~= seq![cmd_code_spec(SyncCmd::GetTrack)] + u32_be_bytes(n as u32)
                + name@.subrange(0, i + 1));
        }
        i += 1;
    }
    proof {
        assert(name@.subrange(0, n as int) =~= name@);
        assert(frame@ =~= seq![cmd_code_spec(SyncCmd::GetTrack)] + u32_be_bytes(n as u32)
            + name@.subrange(0, n as int));
        assert(frame@ =~= track_name_frame_spec(name@));
    }
    frame
}

/// Encodes the message that declares every track name in the given order.
pub fn track_names_message(names: &Vec<Vec<u8>>) -> (message: Vec<u8>)
    requires
        forall|i: int| 0 <= i < names@.len() ==> names@[i]@.len() <= u32::MAX,
    ensures
        message@ == track_names_message_spec(Seq::new(names@.len(), |i: int| names@[i]@)),
{
    let ghost name_seqs = Seq::new(names@.len(), |i: int| names@[i]@);
    let mut message: Vec<u8> = Vec::new();
    let n = names.len();
    let mut i: usize = 0;
    proof {
        assert(name_seqs.subrange(0, 0) =~= Seq::<Seq<u8>>::empty());
        assert(message@ =~= track_names_message_spec(name_seqs.subrange(0, 0)));
    }
    while i < n
        invariant
            i <= n,
            n == names@.len(),
            name_seqs == Seq::new(names@.len(), |j: int| names@[j]@),
            forall|j: int| 0 <= j < names@.len() ==> names@[j]@.len() <= u32::MAX,
            message@ == track_names_message_spec(name_seqs.subrange(0, i as int)),
        decreases n - i,
    {
        let frame = track_name_frame(&names[i]);
        let mut k: usize = 0;
        let m = frame.len();
        while k < m
            invariant
                k <= m,
                m == frame@.len(),
                message@ == track_names_message_spec(name_seqs.subrange(0, i as int))
                    + frame@.subrange(0, k as int),
            decreases m - k,
        {
            message.push(frame[k]);
            proof {
                assert(frame@.subrange(0, k + 1) =~= frame@.subrange(0, k as int).push(
                    frame@[k as int],
                ));
                assert(message@ =~= track_names_message_spec(name_seqs.subrange(0, i as int))
                    + frame@.subrange(0, k + 1));
            }
            k += 1;
        }
        proof {
            assert(frame@.subrange(0, m as int) =~= frame@);
            lemma_track_names_message_snoc(name_seqs.subrange(0, i as int), name_seqs[i as int]);
            assert(name_seqs.subrange(0, i + 1) =~= name_seqs.subrange(0, i as int).push(
                name_seqs[i as int],
            ));
            assert(message@ =~= track_names_message_spec(name_seqs.subrange(0, i + 1)));
        }
        i += 1;
    }
    proof {
        assert(name_seqs.subrange(0, n as int) =~= name_seqs);
    }
    message
}

} // verus!
