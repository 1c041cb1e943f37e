use msa_decoder::{decode, decode_msa_to_st, DecodeError, DecodeMode};

fn header_bytes(sectors_per_track: u16, raw_sides: u16, start_track: u16, end_track: u16) -> Vec<u8> {
    let mut bytes = vec![0x0E, 0x0F];
    bytes.extend_from_slice(&sectors_per_track.to_be_bytes());
    bytes.extend_from_slice(&raw_sides.to_be_bytes());
    bytes.extend_from_slice(&start_track.to_be_bytes());
    bytes.extend_from_slice(&end_track.to_be_bytes());
    bytes
}

#[test]
fn scenario_single_underfilled_track() {
    // Header: sectors_per_track 9, one side, tracks 0..=0; one record of four
    // literal bytes. The declared length 4 is below 9 * 512, so the record is
    // compressed, but no escape byte occurs: the bytes pass through.
    let mut data = header_bytes(9, 0, 0, 0);
    data.extend_from_slice(&[0x00, 0x04, 0xAA, 0xBB, 0xCC, 0xDD]);
    assert_eq!(
        decode(&data, DecodeMode::Lenient),
        Ok(vec![0xAA, 0xBB, 0xCC, 0xDD])
    );
    assert_eq!(decode_msa_to_st(&data), Some(vec![0xAA, 0xBB, 0xCC, 0xDD]));
}

#[test]
fn scenario_second_track_prefix_missing() {
    // Same image but the header promises tracks 0..=1: after the first record
    // the decoder must read a second length prefix, and the input ends there.
    let mut data = header_bytes(9, 0, 0, 1);
    data.extend_from_slice(&[0x00, 0x04, 0xAA, 0xBB, 0xCC, 0xDD]);
    assert_eq!(decode(&data, DecodeMode::Lenient), Err(DecodeError::Truncated));
    assert_eq!(decode_msa_to_st(&data), None);
}

#[test]
fn scenario_escape_run_track() {
    let mut data = header_bytes(9, 0, 0, 0);
    data.extend_from_slice(&[0x00, 0x04, 0xE5, 0x7F, 0x00, 0x03]);
    assert_eq!(decode(&data, DecodeMode::Lenient), Ok(vec![0x7F, 0x7F, 0x7F]));
}

#[test]
fn twenty_zero_bytes_are_not_msa() {
    let data = [0u8; 20];
    assert_eq!(decode(&data, DecodeMode::Lenient), Err(DecodeError::BadMagic));
    assert_eq!(decode(&data, DecodeMode::Strict), Err(DecodeError::BadMagic));
    assert_eq!(decode_msa_to_st(&data), None);
}

#[test]
fn short_buffers_are_too_short() {
    assert_eq!(decode(&[], DecodeMode::Lenient), Err(DecodeError::TooShort));
    assert_eq!(decode(&[0x0E], DecodeMode::Lenient), Err(DecodeError::TooShort));
    let nine = [0x0E, 0x0F, 0, 9, 0, 0, 0, 0, 0];
    assert_eq!(decode(&nine, DecodeMode::Lenient), Err(DecodeError::TooShort));
    assert_eq!(decode(&nine, DecodeMode::Strict), Err(DecodeError::TooShort));
}

#[test]
fn bad_magic_wins_over_everything_after_ten_bytes() {
    let mut data = header_bytes(9, 0, 0, 0);
    data[1] = 0x0E;
    data.extend_from_slice(&[0x00, 0x01, 0x42]);
    assert_eq!(decode(&data, DecodeMode::Lenient), Err(DecodeError::BadMagic));
}

#[test]
fn decoding_is_deterministic() {
    let mut data = header_bytes(9, 0, 0, 0);
    data.extend_from_slice(&[0x00, 0x06, 0x01, 0xE5, 0x02, 0x00, 0x04, 0x03]);
    let first = decode(&data, DecodeMode::Lenient);
    let second = decode(&data, DecodeMode::Lenient);
    assert_eq!(first, second);
    assert!(first.is_ok());
}

#[test]
fn uncompressed_track_is_identical_to_its_range() {
    let mut data = header_bytes(1, 0, 0, 0);
    data.extend_from_slice(&[0x02, 0x00]);
    let track: Vec<u8> = (0..512u32).map(|i| (i % 251) as u8).collect();
    data.extend_from_slice(&track);
    assert_eq!(decode(&data, DecodeMode::Lenient), Ok(track.clone()));
    assert_eq!(decode(&data, DecodeMode::Strict), Ok(track));
}

#[test]
fn tracks_concatenate_in_track_order() {
    let mut data = header_bytes(9, 0, 0, 1);
    data.extend_from_slice(&[0x00, 0x02, 0x61, 0x62]);
    data.extend_from_slice(&[0x00, 0x02, 0x63, 0x64]);
    assert_eq!(
        decode(&data, DecodeMode::Lenient),
        Ok(vec![0x61, 0x62, 0x63, 0x64])
    );
}

#[test]
fn both_sides_of_a_track_are_read() {
    // Raw sides value 1 means two sides: one record per side of track 0.
    let mut data = header_bytes(9, 1, 0, 0);
    data.extend_from_slice(&[0x00, 0x02, 0x61, 0x62]);
    data.extend_from_slice(&[0x00, 0x02, 0x63, 0x64]);
    assert_eq!(
        decode(&data, DecodeMode::Lenient),
        Ok(vec![0x61, 0x62, 0x63, 0x64])
    );
}

#[test]
fn missing_second_side_is_truncated() {
    let mut data = header_bytes(9, 1, 0, 0);
    data.extend_from_slice(&[0x00, 0x02, 0x61, 0x62]);
    assert_eq!(decode(&data, DecodeMode::Lenient), Err(DecodeError::Truncated));
}

#[test]
fn empty_track_range_decodes_to_empty_image() {
    // end_track before start_track declares no tracks: nothing is read after
    // the header, whatever follows it.
    let mut data = header_bytes(9, 0, 1, 0);
    data.extend_from_slice(&[0xDE, 0xAD]);
    assert_eq!(decode(&data, DecodeMode::Lenient), Ok(vec![]));
}

#[test]
fn zero_sides_decode_to_empty_image() {
    let data = header_bytes(9, 0xFFFF, 0, 3);
    assert_eq!(decode(&data, DecodeMode::Lenient), Ok(vec![]));
}

#[test]
fn header_alone_with_a_promised_track_is_truncated() {
    let data = header_bytes(9, 0, 0, 0);
    assert_eq!(decode(&data, DecodeMode::Lenient), Err(DecodeError::Truncated));
}

#[test]
fn prefix_cut_in_half_is_truncated() {
    let mut data = header_bytes(9, 0, 0, 0);
    data.push(0x00);
    assert_eq!(decode(&data, DecodeMode::Lenient), Err(DecodeError::Truncated));
}

#[test]
fn run_crossing_track_end_fails_the_whole_decode() {
    let mut data = header_bytes(9, 0, 0, 0);
    data.extend_from_slice(&[0x00, 0x03, 0xE5, 0x7F, 0x00]);
    assert_eq!(
        decode(&data, DecodeMode::Lenient),
        Err(DecodeError::MalformedTrack)
    );
    assert_eq!(decode_msa_to_st(&data), None);
}

#[test]
fn truncated_track_data_fails_the_whole_decode() {
    let mut data = header_bytes(9, 0, 0, 0);
    data.extend_from_slice(&[0x00, 0x04, 0xAA, 0xBB]);
    assert_eq!(decode(&data, DecodeMode::Lenient), Err(DecodeError::Truncated));
}

#[test]
fn strict_mode_rejects_underfilled_tracks() {
    let mut data = header_bytes(9, 0, 0, 0);
    data.extend_from_slice(&[0x00, 0x04, 0xAA, 0xBB, 0xCC, 0xDD]);
    assert_eq!(
        decode(&data, DecodeMode::Strict),
        Err(DecodeError::MalformedTrack)
    );
}

#[test]
fn strict_mode_accepts_exactly_nominal_tracks() {
    let mut data = header_bytes(1, 0, 0, 0);
    data.extend_from_slice(&[0x00, 0x04, 0xE5, 0x33, 0x02, 0x00]);
    assert_eq!(decode(&data, DecodeMode::Strict), Ok(vec![0x33; 512]));
}
