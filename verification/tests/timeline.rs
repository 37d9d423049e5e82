use rocket_client::device::{SyncDevice, SyncTrack, TrackKey};

fn key(row: u32, value: f32, key_type: u8) -> TrackKey {
    TrackKey { row, value_bits: value.to_bits(), key_type }
}

#[test]
fn new_device_is_empty_and_unpaused() {
    let device = SyncDevice::new(8);
    assert_eq!(device.track_count(), 0);
    assert_eq!(device.row(), 0);
    assert_eq!(device.time(), 0);
    assert_eq!(device.rps(), 8);
    assert!(!device.is_paused());
}

#[test]
fn add_track_grows_the_count() {
    let mut device = SyncDevice::new(8);
    device.add_track();
    device.add_track();
    assert_eq!(device.track_count(), 2);
    assert_eq!(device.key_count(0), 0);
    assert_eq!(device.key_count(1), 0);
}

#[test]
fn set_key_then_get_key() {
    let mut device = SyncDevice::new(8);
    device.add_track();
    device.set_key(0, key(16, 2.5, 1));
    assert_eq!(device.key_count(0), 1);
    let found = device.get_key(0, 16).unwrap();
    assert_eq!(found.row, 16);
    assert_eq!(found.value_bits, 2.5f32.to_bits());
    assert_eq!(found.key_type, 1);
    assert!(device.get_key(0, 17).is_none());
}

#[test]
fn set_key_at_same_row_replaces() {
    // Two keyframes at the same row leave exactly one, with the second value.
    let mut device = SyncDevice::new(8);
    device.add_track();
    device.set_key(0, key(16, 1.0, 0));
    device.set_key(0, key(16, 9.75, 2));
    assert_eq!(device.key_count(0), 1);
    let found = device.get_key(0, 16).unwrap();
    assert_eq!(found.value_bits, 9.75f32.to_bits());
    assert_eq!(found.key_type, 2);
}

#[test]
fn delete_absent_key_changes_nothing() {
    let mut track = SyncTrack::new();
    track.add_key(TrackKey { row: 4, value_bits: 7, key_type: 0 });
    track.delete_key(5);
    assert_eq!(track.key_count(), 1);
    let found = track.get_key(4).unwrap();
    assert_eq!(found.value_bits, 7);
    let mut empty = SyncTrack::new();
    empty.delete_key(0);
    assert_eq!(empty.key_count(), 0);
}

#[test]
fn delete_present_key_removes_it() {
    let mut device = SyncDevice::new(8);
    device.add_track();
    device.set_key(0, key(3, 1.0, 0));
    device.set_key(0, key(8, 2.0, 0));
    device.delete_key(0, 3);
    assert_eq!(device.key_count(0), 1);
    assert!(device.get_key(0, 3).is_none());
    assert!(device.get_key(0, 8).is_some());
}

#[test]
fn set_row_recomputes_time() {
    let mut device = SyncDevice::new(8);
    device.set_row(8);
    assert_eq!(device.row(), 8);
    assert_eq!(device.time(), 1000);
}

#[test]
fn set_paused_flips_the_flag() {
    let mut device = SyncDevice::new(8);
    device.set_paused(true);
    assert!(device.is_paused());
    device.set_paused(false);
    assert!(!device.is_paused());
}
