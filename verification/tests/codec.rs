use rocket_client::utils::{cmd_to_code, code_to_cmd, ms_from_row_rps, net_to_u32, u32_to_le, u32_to_net};
use rocket_client::SyncCmd;

#[test]
fn u32_big_endian_round_trip() {
    for &n in &[0u32, 1, 258, 0xDEAD_BEEF, u32::MAX] {
        let bytes = u32_to_net(n);
        assert_eq!(net_to_u32(&bytes), n);
    }
}

#[test]
fn u32_big_endian_exact_bytes() {
    assert_eq!(u32_to_net(0x01020304), [1, 2, 3, 4]);
    assert_eq!(net_to_u32(&[0, 0, 1, 2]), 258);
    assert_eq!(net_to_u32(&[0xDE, 0xAD, 0xBE, 0xEF]), 0xDEAD_BEEF);
}

#[test]
fn u32_little_endian_exact_bytes() {
    assert_eq!(u32_to_le(0x01020304), [4, 3, 2, 1]);
    assert_eq!(u32_to_le(0), [0, 0, 0, 0]);
}

#[test]
fn float_bit_pattern_round_trip() {
    // The wire carries a 32-bit float as its raw bit pattern; decoding the
    // big-endian bytes must give back the identical pattern, not merely a
    // numerically close value.
    for &x in &[0.0f32, -0.0, 1.5, -3.25, f32::NAN, f32::INFINITY, f32::MIN_POSITIVE] {
        let bits = x.to_bits();
        let bytes = u32_to_net(bits);
        let decoded = net_to_u32(&bytes);
        assert_eq!(decoded, bits);
    }
}

#[test]
fn command_codes_match_the_wire() {
    assert_eq!(cmd_to_code(&SyncCmd::SetKey), 0);
    assert_eq!(cmd_to_code(&SyncCmd::DeleteKey), 1);
    assert_eq!(cmd_to_code(&SyncCmd::GetTrack), 2);
    assert_eq!(cmd_to_code(&SyncCmd::SetRow), 3);
    assert_eq!(cmd_to_code(&SyncCmd::Pause), 4);
    assert_eq!(cmd_to_code(&SyncCmd::SaveTracks), 5);
    assert_eq!(cmd_to_code(&SyncCmd::NOOP), 255);
}

#[test]
fn unknown_codes_decode_to_noop() {
    assert_eq!(code_to_cmd(0), SyncCmd::SetKey);
    assert_eq!(code_to_cmd(1), SyncCmd::DeleteKey);
    assert_eq!(code_to_cmd(2), SyncCmd::GetTrack);
    assert_eq!(code_to_cmd(3), SyncCmd::SetRow);
    assert_eq!(code_to_cmd(4), SyncCmd::Pause);
    assert_eq!(code_to_cmd(5), SyncCmd::SaveTracks);
    assert_eq!(code_to_cmd(6), SyncCmd::NOOP);
    assert_eq!(code_to_cmd(77), SyncCmd::NOOP);
    assert_eq!(code_to_cmd(255), SyncCmd::NOOP);
}

#[test]
fn ms_from_row_formula() {
    // row / rps seconds, in milliseconds, rounded to the nearest.
    assert_eq!(ms_from_row_rps(0, 8), 0);
    assert_eq!(ms_from_row_rps(8, 8), 1000);
    assert_eq!(ms_from_row_rps(4, 8), 500);
    assert_eq!(ms_from_row_rps(100, 8), 12500);
}

#[test]
fn ms_from_row_half_millisecond_rounds_up() {
    // 1 row at 2000 rows per second is exactly 0.5 ms: rounds up to 1.
    assert_eq!(ms_from_row_rps(1, 2000), 1);
    // 3 rows at 2000 rows per second is exactly 1.5 ms: rounds up to 2.
    assert_eq!(ms_from_row_rps(3, 2000), 2);
}

#[test]
fn ms_from_row_saturates() {
    assert_eq!(ms_from_row_rps(u32::MAX, 1), u32::MAX);
}
