use rocket_client::device::SyncDevice;
use rocket_client::dispatch::poll;
use rocket_client::SyncError;

fn set_key_bytes(track_index: u32, row: u32, value: f32, key_type: u8) -> Vec<u8> {
    let mut bytes = vec![0u8];
    bytes.extend_from_slice(&track_index.to_be_bytes());
    bytes.extend_from_slice(&row.to_be_bytes());
    bytes.extend_from_slice(&value.to_bits().to_be_bytes());
    bytes.push(key_type);
    bytes
}

fn delete_key_bytes(track_index: u32, row: u32) -> Vec<u8> {
    let mut bytes = vec![1u8];
    bytes.extend_from_slice(&track_index.to_be_bytes());
    bytes.extend_from_slice(&row.to_be_bytes());
    bytes
}

fn set_row_bytes(row: u32) -> Vec<u8> {
    let mut bytes = vec![3u8];
    bytes.extend_from_slice(&row.to_be_bytes());
    bytes
}

#[test]
fn empty_batch_is_the_normal_end() {
    let mut device = SyncDevice::new(8);
    let result = poll(&Vec::new(), &mut device);
    assert_eq!(result, Ok(false));
}

#[test]
fn set_row_then_pause_apply_in_order() {
    // SetRow(5) followed by Pause(1): after one poll the row is 5 and the
    // timeline is paused.
    let mut device = SyncDevice::new(8);
    let mut input = set_row_bytes(5);
    input.extend_from_slice(&[4, 1]);
    let result = poll(&input, &mut device);
    assert_eq!(result, Ok(true));
    assert_eq!(device.row(), 5);
    assert!(device.is_paused());
    assert_eq!(device.time(), 625);
}

#[test]
fn pause_payload_other_than_one_unpauses() {
    let mut device = SyncDevice::new(8);
    device.set_paused(true);
    let result = poll(&vec![4, 0], &mut device);
    assert_eq!(result, Ok(true));
    assert!(!device.is_paused());
    device.set_paused(true);
    let result = poll(&vec![4, 2], &mut device);
    assert_eq!(result, Ok(true));
    assert!(!device.is_paused());
}

#[test]
fn unknown_command_byte_is_tolerated() {
    // A byte outside {0,1,2,3,4,5} is a NoOp: no error, no mutation, no
    // redraw.
    let mut device = SyncDevice::new(8);
    device.add_track();
    let result = poll(&vec![77], &mut device);
    assert_eq!(result, Ok(false));
    assert_eq!(device.row(), 0);
    assert_eq!(device.time(), 0);
    assert!(!device.is_paused());
    assert_eq!(device.key_count(0), 0);
}

#[test]
fn unknown_byte_does_not_stop_the_batch() {
    let mut device = SyncDevice::new(8);
    let mut input = vec![200u8];
    input.extend_from_slice(&set_row_bytes(9));
    let result = poll(&input, &mut device);
    assert_eq!(result, Ok(true));
    assert_eq!(device.row(), 9);
}

#[test]
fn get_track_and_save_tracks_are_recognized_without_effect() {
    let mut device = SyncDevice::new(8);
    let result = poll(&vec![2], &mut device);
    assert_eq!(result, Ok(false));
    let result = poll(&vec![5], &mut device);
    assert_eq!(result, Ok(false));
}

#[test]
fn set_key_through_the_wire() {
    let mut device = SyncDevice::new(8);
    device.add_track();
    let input = set_key_bytes(0, 32, 1.25, 2);
    let result = poll(&input, &mut device);
    assert_eq!(result, Ok(true));
    let found = device.get_key(0, 32).unwrap();
    assert_eq!(found.row, 32);
    assert_eq!(found.value_bits, 1.25f32.to_bits());
    assert_eq!(found.key_type, 2);
}

#[test]
fn delete_key_through_the_wire() {
    let mut device = SyncDevice::new(8);
    device.add_track();
    let result = poll(&set_key_bytes(0, 32, 1.25, 2), &mut device);
    assert_eq!(result, Ok(true));
    let result = poll(&delete_key_bytes(0, 32), &mut device);
    assert_eq!(result, Ok(true));
    assert!(device.get_key(0, 32).is_none());
}

#[test]
fn set_key_on_empty_timeline_is_no_tracks() {
    let mut device = SyncDevice::new(8);
    let result = poll(&set_key_bytes(0, 1, 0.0, 0), &mut device);
    assert_eq!(result, Err(SyncError::NoTracks));
}

#[test]
fn set_key_at_track_count_is_track_not_found() {
    // The valid indices are strictly below the track count: an index equal
    // to the count is rejected.
    let mut device = SyncDevice::new(8);
    device.add_track();
    let result = poll(&set_key_bytes(1, 1, 0.0, 0), &mut device);
    assert_eq!(result, Err(SyncError::TrackNotFound));
    assert_eq!(device.key_count(0), 0);
}

#[test]
fn delete_key_past_track_count_is_track_not_found() {
    let mut device = SyncDevice::new(8);
    device.add_track();
    let result = poll(&delete_key_bytes(3, 1), &mut device);
    assert_eq!(result, Err(SyncError::TrackNotFound));
}

#[test]
fn truncated_payload_is_a_read_error() {
    let mut device = SyncDevice::new(8);
    let result = poll(&vec![3, 0, 0], &mut device);
    assert_eq!(result, Err(SyncError::CouldNotReadFromServer));
}

#[test]
fn polling_in_two_ticks_equals_one_poll() {
    let mut split = SyncDevice::new(8);
    split.add_track();
    let mut whole = SyncDevice::new(8);
    whole.add_track();

    let first = set_row_bytes(5);
    let mut second = set_key_bytes(0, 2, 4.5, 1);
    second.extend_from_slice(&[4, 1]);

    let r1 = poll(&first, &mut split);
    let r2 = poll(&second, &mut split);
    assert_eq!((r1, r2), (Ok(true), Ok(true)));

    let mut both = first.clone();
    both.extend_from_slice(&second);
    assert_eq!(poll(&both, &mut whole), Ok(true));

    assert_eq!(split.row(), whole.row());
    assert_eq!(split.time(), whole.time());
    assert_eq!(split.is_paused(), whole.is_paused());
    assert_eq!(split.get_key(0, 2), whole.get_key(0, 2));
}

#[test]
fn commands_before_an_error_keep_their_effect() {
    let mut device = SyncDevice::new(8);
    let mut input = set_row_bytes(7);
    input.extend_from_slice(&set_key_bytes(5, 1, 0.0, 0));
    let result = poll(&input, &mut device);
    assert_eq!(result, Err(SyncError::NoTracks));
    assert_eq!(device.row(), 7);
}
