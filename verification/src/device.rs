//! In-memory timeline that inbound commands mutate: tracks of keyframes,
//! the current row and time, and the pause flag.
//!
//! A track is modelled as a finite map from row to keyframe, which makes the
//! uniqueness rule — at most one keyframe per row — part of the statement of
//! every operation: setting a key at an existing row replaces it, deleting an
//! absent row changes nothing.

use vstd::prelude::*;
use crate::utils::{ms_of_row_sat, ms_from_row_rps};

verus! {

/// One keyframe: a point on a track's timeline. The value travels on the
/// wire as a raw IEEE-754 bit pattern and is kept as that pattern here; the
/// interpolation kind is transported opaquely as its one-byte code.
#[derive(Clone, Copy, PartialEq, Eq, Structural, Debug)]
pub struct TrackKey {
    pub row: u32,
    pub value_bits: u32,
    pub key_type: u8,
}

/// A sequence of keyframes with at most one keyframe per row.
pub struct SyncTrack {
    keys: Vec<TrackKey>,
}

/// Whether some keyframe in `s` sits at row `r`.
spec fn has_row(s: Seq<TrackKey>, r: u32) -> bool {
    exists|i: int| 0 <= i < s.len() && s[i].row == r
}

/// The index of the keyframe at row `r`, where one exists.
spec fn row_index(s: Seq<TrackKey>, r: u32) -> int {
    choose|i: int| 0 <= i < s.len() && s[i].row == r
}

/// No two keyframes share a row.
spec fn distinct_rows(s: Seq<TrackKey>) -> bool {
    forall|i: int, j: int| 0 <= i < j < s.len() ==> s[i].row != s[j].row
}

/// The map from row to keyframe that a keyframe sequence represents.
spec fn track_map(s: Seq<TrackKey>) -> Map<u32, TrackKey> {
    Map::new(|r: u32| has_row(s, r), |r: u32| s[row_index(s, r)])
}

/// With distinct rows, the keyframe at a known index is the one the map
/// lookup finds.
proof fn lemma_row_index_of(s: Seq<TrackKey>, j: int)
    requires
        distinct_rows(s),
        0 <= j < s.len(),
    ensures
        has_row(s, s[j].row),
        row_index(s, s[j].row) == j,
{
    assert(has_row(s, s[j].row));
    let i = row_index(s, s[j].row);
    if i != j {
        assert(s[i].row != s[j].row);
    }
}

/// Replacing the keyframe at the index that already holds `key.row`
/// corresponds to a map insert at that row.
proof fn lemma_track_map_update(s: Seq<TrackKey>, i: int, key: TrackKey)
    requires
        distinct_rows(s),
        0 <= i < s.len(),
        s[i].row == key.row,
    ensures
        distinct_rows(s.update(i, key)),
        track_map(s.update(i, key)) == track_map(s).insert(key.row, key),
{
    let t = s.update(i, key);
    assert(forall|x: int| 0 <= x < t.len() ==> t[x].row == s[x].row);
    let m1 = track_map(t);
    let m2 = track_map(s).insert(key.row, key);
    assert forall|r: u32| m1.dom().contains(r) implies m2.dom().contains(r) by {
        let j = row_index(t, r);
        assert(s[j].row == r);
        assert(has_row(s, r));
    };
    assert forall|r: u32| m2.dom().contains(r) implies m1.dom().contains(r) by {
        if r == key.row {
            assert(t[i].row == r);
        } else {
            let j = row_index(s, r);
            assert(t[j].row == r);
        }
        assert(has_row(t, r));
    };
    assert forall|r: u32| m1.dom().contains(r) implies m1[r] == m2[r] by {
        if r == key.row {
            lemma_row_index_of(t, i);
            assert(m1[r] == key);
        } else {
            let j = row_index(t, r);
            assert(t[j].row == r && 0 <= j < t.len());
            assert(j != i);
            lemma_row_index_of(s, j);
            assert(m1[r] == t[j] && t[j] == s[j] && m2[r] == s[row_index(s, r)]);
        }
    };
    assert(m1 =~= m2);
}

/// Appending a keyframe at a fresh row corresponds to a map insert at that
/// row.
proof fn lemma_track_map_push(s: Seq<TrackKey>, key: TrackKey)
    requires
        distinct_rows(s),
        !has_row(s, key.row),
    ensures
        distinct_rows(s.push(key)),
        track_map(s.push(key)) == track_map(s).insert(key.row, key),
{
    let t = s.push(key);
    let n = s.len() as int;
    assert forall|p: int, q: int| 0 <= p < q < t.len() implies t[p].row != t[q].row by {
        if q == n {
            assert(t[p] == s[p]);
            if t[p].row == key.row {
                assert(has_row(s, key.row));
            }
        } else {
            assert(t[p] == s[p] && t[q] == s[q]);
        }
    };
    let m1 = track_map(t);
    let m2 = track_map(s).insert(key.row, key);
    assert forall|r: u32| m1.dom().contains(r) implies m2.dom().contains(r) by {
        let j = row_index(t, r);
        if j != n {
            assert(s[j].row == r);
            assert(has_row(s, r));
        }
    };
    assert forall|r: u32| m2.dom().contains(r) implies m1.dom().contains(r) by {
        if r == key.row {
            assert(t[n].row == r);
        } else {
            let j = row_index(s, r);
            assert(t[j].row == r);
        }
        assert(has_row(t, r));
    };
    assert forall|r: u32| m1.dom().contains(r) implies m1[r] == m2[r] by {
        if r == key.row {
            lemma_row_index_of(t, n);
            assert(m1[r] == key);
        } else {
            let j = row_index(t, r);
            assert(t[j].row == r && 0 <= j < t.len());
            assert(j != n);
            lemma_row_index_of(s, j);
            assert(m1[r] == t[j] && t[j] == s[j] && m2[r] == s[row_index(s, r)]);
        }
    };
    assert(m1 =~= m2);
}

/// Removing the keyframe at an index corresponds to a map remove of its row.
proof fn lemma_track_map_remove(s: Seq<TrackKey>, i: int)
    requires
        distinct_rows(s),
        0 <= i < s.len(),
    ensures
        distinct_rows(s.remove(i)),
        track_map(s.remove(i)) == track_map(s).remove(s[i].row),
{
    let t = s.remove(i);
    assert(forall|x: int| 0 <= x < i ==> t[x] == s[x]);
    assert(forall|x: int| i <= x < t.len() ==> t[x] == s[x + 1]);
    assert forall|p: int, q: int| 0 <= p < q < t.len() implies t[p].row != t[q].row by {
        let p0 = if p < i { p } else { p + 1 };
        let q0 = if q < i { q } else { q + 1 };
        assert(t[p] == s[p0] && t[q] == s[q0] && p0 < q0);
    };
    let m1 = track_map(t);
    let m2 = track_map(s).remove(s[i].row);
    assert forall|r: u32| m1.dom().contains(r) implies m2.dom().contains(r) by {
        let j = row_index(t, r);
        let j0 = if j < i { j } else { j + 1 };
        assert(s[j0].row == r);
        assert(has_row(s, r));
        assert(j0 != i);
        if r == s[i].row {
            assert(s[j0].row == s[i].row);
            assert(false);
        }
    };
    assert forall|r: u32| m2.dom().contains(r) implies m1.dom().contains(r) by {
        let j = row_index(s, r);
        assert(s[j].row == r && 0 <= j < s.len());
        if j == i {
            assert(r == s[i].row);
            assert(false);
        }
        let j1 = if j < i { j } else { j - 1 };
        assert(t[j1] == s[j]);
        assert(has_row(t, r));
    };
    assert forall|r: u32| m1.dom().contains(r) implies m1[r] == m2[r] by {
        let j = row_index(t, r);
        assert(t[j].row == r && 0 <= j < t.len());
        let j0 = if j < i { j } else { j + 1 };
        assert(t[j] == s[j0]);
        lemma_row_index_of(s, j0);
        assert(m2[r] == s[row_index(s, r)]);
    };
    assert(m1 =~= m2);
}

impl View for SyncTrack {
    type V = Map<u32, TrackKey>;

    closed spec fn view(&self) -> Map<u32, TrackKey> {
        track_map(self.keys@)
    }
}

impl SyncTrack {
    /// Internal shape the operations below rely on: one keyframe per row.
    pub closed spec fn wf(&self) -> bool {
        distinct_rows(self.keys@)
    }

    /// An empty track: no keyframe at any row.
    pub fn new() -> (track: SyncTrack)
        ensures
            track.wf(),
            track@ == Map::<u32, TrackKey>::empty(),
    {
        let track = SyncTrack { keys: Vec::new() };
        proof {
            assert(track@ =~= Map::<u32, TrackKey>::empty());
        }
        track
    }

    /// Inserts the keyframe at its row, replacing whatever keyframe sat
    /// there before.
    pub fn add_key(&mut self, key: TrackKey)
        requires
            old(self).wf(),
        ensures
            final(self).wf(),
            final(self)@ == old(self)@.insert(key.row, key),
    {
        let n = self.keys.len();
        let mut i: usize = 0;
        while i < n
            invariant
                n == self.keys.len(),
                self.wf(),
                self == old(self),
                forall|j: int| 0 <= j < i ==> self.keys@[j].row != key.row,
            decreases n - i,
        {
            if self.keys[i].row == key.row {
                proof {
                    lemma_track_map_update(self.keys@, i as int, key);
                }
                self.keys[i] = key;
                return ;
            }
            i += 1;
        }
        proof {
            assert(!has_row(self.keys@, key.row));
            lemma_track_map_push(self.keys@, key);
        }
        self.keys.push(key);
    }

    /// Removes the keyframe at the row. Where no keyframe sits at that row
    /// the track is left exactly as it was: deletion is idempotent.
    pub fn delete_key(&mut self, row: u32)
        requires
            old(self).wf(),
        ensures
            final(self).wf(),
            final(self)@ == old(self)@.remove(row),
            !old(self)@.dom().contains(row) ==> final(self)@ == old(self)@,
    {
        let n = self.keys.len();
        let mut i: usize = 0;
        while i < n
            invariant
                n == self.keys.len(),
                self.wf(),
                self == old(self),
                forall|j: int| 0 <= j < i ==> self.keys@[j].row != row,
            decreases n - i,
        {
            if self.keys[i].row == row {
                proof {
                    lemma_track_map_remove(self.keys@, i as int);
                }
                self.keys.remove(i);
                return ;
            }
            i += 1;
        }
        proof {
            assert(!has_row(self.keys@, row));
            assert(!self@.dom().contains(row));
            assert(self@.remove(row) =~= self@);
        }
    }

    /// The keyframe at the row, where one exists.
    pub fn get_key(&self, row: u32) -> (found: Option<TrackKey>)
        requires
            self.wf(),
        ensures
            match found {
                Some(key) => self@.dom().contains(row) && key == self@[row],
                None => !self@.dom().contains(row),
            },
    {
        let n = self.keys.len();
        let mut i: usize = 0;
        while i < n
            invariant
                n == self.keys.len(),
                self.wf(),
                forall|j: int| 0 <= j < i ==> self.keys@[j].row != row,
            decreases n - i,
        {
            if self.keys[i].row == row {
                proof {
                    lemma_row_index_of(self.keys@, i as int);
                }
                return Some(self.keys[i]);
            }
            i += 1;
        }
        proof {
            assert(!has_row(self.keys@, row));
        }
        None
    }

    /// How many keyframes the track holds: one per row it maps.
    pub fn key_count(&self) -> (n: usize)
        requires
            self.wf(),
        ensures
            n == self@.dom().len(),
    {
        proof {
            let s = self.keys@;
            let rows = s.map_values(|k: TrackKey| k.row);
            assert forall|p: int, q: int|
                0 <= p < rows.len() && 0 <= q < rows.len() && p != q implies rows[p]
                != rows[q] by {
                assert(rows[p] == s[p].row && rows[q] == s[q].row);
            };
            assert(rows.no_duplicates());
            rows.unique_seq_to_set();
            assert forall|r: u32| self@.dom().contains(r) implies rows.to_set().contains(r) by {
                let j = row_index(s, r);
                assert(rows[j] == r);
                assert(rows.contains(r));
            };
            assert forall|r: u32| rows.to_set().contains(r) implies self@.dom().contains(r) by {
                let j = choose|j: int| 0 <= j < rows.len() && rows[j] == r;
                assert(s[j].row == r);
                assert(has_row(s, r));
            };
            assert(self@.dom() =~= rows.to_set());
        }
        self.keys.len()
    }
}

/// What a timeline holds, as plain mathematical values: one row-to-keyframe
/// map per track, the playback position, and the pause state.
#[verifier::ext_equal]
pub ghost struct DeviceView {
    pub tracks: Seq<Map<u32, TrackKey>>,
    pub row: u32,
    pub time: u32,
    pub rps: u32,
    pub paused: bool,
}

/// The timeline a caller owns and the dispatch loop mutates: named tracks
/// (addressed by index here), the current row and its time in milliseconds,
/// the configured rows-per-second rate, and the pause flag.
pub struct SyncDevice {
    tracks: Vec<SyncTrack>,
    row: u32,
    time: u32,
    rps: u32,
    is_paused: bool,
}

impl View for SyncDevice {
    type V = DeviceView;

    closed spec fn view(&self) -> DeviceView {
        DeviceView {
            tracks: Seq::new(self.tracks@.len(), |i: int| self.tracks@[i]@),
            row: self.row,
            time: self.time,
            rps: self.rps,
            paused: self.is_paused,
        }
    }
}

impl SyncDevice {
    /// Internal shape the operations below rely on: a positive rate, and
    /// every track well-formed.
    pub closed spec fn wf(&self) -> bool {
        &&& self.rps > 0
        &&& forall|i: int| 0 <= i < self.tracks@.len() ==> self.tracks@[i].wf()
    }

    /// A fresh timeline with no tracks, at row 0 and time 0, not paused.
    pub fn new(rps: u32) -> (device: SyncDevice)
        requires
            rps > 0,
        ensures
            device.wf(),
            device@.tracks == Seq::<Map<u32, TrackKey>>::empty(),
            device@.row == 0,
            device@.time == 0,
            device@.rps == rps,
            device@.paused == false,
    {
        let device = SyncDevice { tracks: Vec::new(), row: 0, time: 0, rps, is_paused: false };
        proof {
            assert(device@.tracks =~= Seq::<Map<u32, TrackKey>>::empty());
        }
        device
    }

    /// Appends one empty track; inbound commands address it by its index,
    /// which is the track count before the call.
    pub fn add_track(&mut self)
        requires
            old(self).wf(),
        ensures
            final(self).wf(),
            final(self)@.tracks == old(self)@.tracks.push(Map::<u32, TrackKey>::empty()),
            final(self)@.row == old(self)@.row,
            final(self)@.time == old(self)@.time,
            final(self)@.rps == old(self)@.rps,
            final(self)@.paused == old(self)@.paused,
    {
        let track = SyncTrack::new();
        self.tracks.push(track);
        proof {
            assert(self@.tracks =~= old(self)@.tracks.push(Map::<u32, TrackKey>::empty()));
        }
    }

    /// How many tracks the timeline holds; valid track indices are strictly
    /// below this.
    pub fn track_count(&self) -> (n: usize)
        ensures
            n == self@.tracks.len(),
    {
        self.tracks.len()
    }

    /// The current row.
    pub fn row(&self) -> (row: u32)
        ensures
            row == self@.row,
    {
        self.row
    }

    /// The current time in milliseconds.
    pub fn time(&self) -> (time: u32)
        ensures
            time == self@.time,
    {
        self.time
    }

    /// The configured rows-per-second rate.
    pub fn rps(&self) -> (rps: u32)
        ensures
            rps == self@.rps,
    {
        self.rps
    }

    /// Whether playback is paused.
    pub fn is_paused(&self) -> (paused: bool)
        ensures
            paused == self@.paused,
    {
        self.is_paused
    }

    /// The keyframe at the row of the addressed track, where one exists.
    pub fn get_key(&self, track_index: usize, row: u32) -> (found: Option<TrackKey>)
        requires
            self.wf(),
            track_index < self@.tracks.len(),
        ensures
            match found {
                Some(key) => self@.tracks[track_index as int].dom().contains(row) && key
                    == self@.tracks[track_index as int][row],
                None => !self@.tracks[track_index as int].dom().contains(row),
            },
    {
        self.tracks[track_index].get_key(row)
    }

    /// How many keyframes the addressed track holds.
    pub fn key_count(&self, track_index: usize) -> (n: usize)
        requires
            self.wf(),
            track_index < self@.tracks.len(),
        ensures
            n == self@.tracks[track_index as int].dom().len(),
    {
        self.tracks[track_index].key_count()
    }

    /// Inserts the keyframe at its row on the addressed track, replacing
    /// whatever keyframe sat there; the other tracks and the playback state
    /// are untouched.
    pub fn set_key(&mut self, track_index: usize, key: TrackKey)
        requires
            old(self).wf(),
            track_index < old(self)@.tracks.len(),
        ensures
            final(self).wf(),
            final(self)@.tracks == old(self)@.tracks.update(
                track_index as int,
                old(self)@.tracks[track_index as int].insert(key.row, key),
            ),
            final(self)@.row == old(self)@.row,
            final(self)@.time == old(self)@.time,
            final(self)@.rps == old(self)@.rps,
            final(self)@.paused == old(self)@.paused,
    {
        let track = &mut self.tracks[track_index];
        track.add_key(key);
        proof {
            assert(self@.tracks =~= old(self)@.tracks.update(
                track_index as int,
                old(self)@.tracks[track_index as int].insert(key.row, key),
            ));
        }
    }

    /// Removes the keyframe at the row on the addressed track, where one
    /// exists; the other tracks and the playback state are untouched.
    pub fn delete_key(&mut self, track_index: usize, row: u32)
        requires
            old(self).wf(),
            track_index < old(self)@.tracks.len(),
        ensures
            final(self).wf(),
            final(self)@.tracks == old(self)@.tracks.update(
                track_index as int,
                old(self)@.tracks[track_index as int].remove(row),
            ),
            final(self)@.row == old(self)@.row,
            final(self)@.time == old(self)@.time,
            final(self)@.rps == old(self)@.rps,
            final(self)@.paused == old(self)@.paused,
    {
        let track = &mut self.tracks[track_index];
        track.delete_key(row);
        proof {
            assert(self@.tracks =~= old(self)@.tracks.update(
                track_index as int,
                old(self)@.tracks[track_index as int].remove(row),
            ));
        }
    }

    /// Sets the current row and recomputes the current time from it and the
    /// configured rate.
    pub fn set_row(&mut self, row: u32)
        requires
            old(self).wf(),
        ensures
            final(self).wf(),
            final(self)@.tracks == old(self)@.tracks,
            final(self)@.row == row,
            final(self)@.time == ms_of_row_sat(row, old(self)@.rps),
            final(self)@.rps == old(self)@.rps,
            final(self)@.paused == old(self)@.paused,
    {
        self.row = row;
        self.time = ms_from_row_rps(row, self.rps);
    }

    /// Sets the pause flag.
    pub fn set_paused(&mut self, paused: bool)
        requires
            old(self).wf(),
        ensures
            final(self).wf(),
            final(self)@.tracks == old(self)@.tracks,
            final(self)@.row == old(self)@.row,
            final(self)@.time == old(self)@.time,
            final(self)@.rps == old(self)@.rps,
            final(self)@.paused == paused,
    {
        self.is_paused = paused;
    }
}

/// Setting a keyframe and then another at the same row leaves the track as
/// if only the second had been set: exactly one keyframe sits at that row,
/// and it is the second one.
pub proof fn lemma_set_key_replaces(m: Map<u32, TrackKey>, first: TrackKey, second: TrackKey)
    requires
        first.row == second.row,
    ensures
        m.insert(first.row, first).insert(second.row, second) == m.insert(second.row, second),
        m.insert(first.row, first).insert(second.row, second)[second.row] == second,
{
    assert(m.insert(first.row, first).insert(second.row, second) =~= m.insert(
        second.row,
        second,
    ));
}

} // verus!
