use rocket_client::sender::{row_frame, track_name_frame, track_names_message};

#[test]
fn row_frame_is_code_then_big_endian_row() {
    assert_eq!(row_frame(5), vec![3, 0, 0, 0, 5]);
    assert_eq!(row_frame(0x01020304), vec![3, 1, 2, 3, 4]);
}

#[test]
fn track_name_frame_is_code_length_then_name() {
    let frame = track_name_frame(&b"cam.x".to_vec());
    assert_eq!(frame, vec![2, 0, 0, 0, 5, b'c', b'a', b'm', b'.', b'x']);
    let frame = track_name_frame(&Vec::new());
    assert_eq!(frame, vec![2, 0, 0, 0, 0]);
}

#[test]
fn track_names_message_keeps_the_given_order() {
    let names = vec![b"a".to_vec(), b"bb".to_vec()];
    let message = track_names_message(&names);
    assert_eq!(
        message,
        vec![2, 0, 0, 0, 1, b'a', 2, 0, 0, 0, 2, b'b', b'b']
    );
    assert_eq!(track_names_message(&Vec::new()), Vec::<u8>::new());
}
