use solsign::error::DecodeError;
use solsign::varint::{decode_compact_u16, encode_compact_u16};

fn encoded(n: u16) -> Vec<u8> {
    let mut w = Vec::new();
    encode_compact_u16(n, &mut w);
    w
}

#[test]
fn compact_u16_round_trips_up_to_16383() {
    for n in 0..=16383u16 {
        let bytes = encoded(n);
        let expected_len = if n < 128 { 1 } else { 2 };
        assert_eq!(bytes.len(), expected_len);
        assert_eq!(decode_compact_u16(&bytes, 0), Ok((n, expected_len)));
    }
}

#[test]
fn compact_u16_round_trips_above_16383() {
    for n in 16384..=u16::MAX {
        let bytes = encoded(n);
        assert_eq!(bytes.len(), 3);
        assert_eq!(decode_compact_u16(&bytes, 0), Ok((n, 3)));
    }
}

#[test]
fn compact_u16_exact_bytes() {
    assert_eq!(encoded(0), vec![0x00]);
    assert_eq!(encoded(127), vec![0x7f]);
    assert_eq!(encoded(128), vec![0x80, 0x01]);
    assert_eq!(encoded(300), vec![0xac, 0x02]);
    assert_eq!(encoded(16383), vec![0xff, 0x7f]);
    assert_eq!(encoded(16384), vec![0x80, 0x80, 0x01]);
    assert_eq!(encoded(65535), vec![0xff, 0xff, 0x03]);
}

#[test]
fn compact_u16_appends_to_what_is_there() {
    let mut w = vec![9u8, 8];
    encode_compact_u16(200, &mut w);
    assert_eq!(w, vec![9, 8, 0xc8, 0x01]);
}

#[test]
fn compact_u16_third_byte_is_cut_to_two_bits() {
    assert_eq!(decode_compact_u16(&[0x80, 0x80, 0x04], 0), Ok((0, 3)));
    assert_eq!(decode_compact_u16(&[0x81, 0x80, 0x07], 0), Ok((49153, 3)));
    assert_eq!(decode_compact_u16(&[0xff, 0xff, 0xff], 0), Ok((65535, 3)));
}

#[test]
fn compact_u16_accepts_longer_forms() {
    assert_eq!(decode_compact_u16(&[0x80, 0x00], 0), Ok((0, 2)));
    assert_eq!(decode_compact_u16(&[0x85, 0x80, 0x00], 0), Ok((5, 3)));
}

#[test]
fn compact_u16_reads_at_a_position() {
    assert_eq!(decode_compact_u16(&[1, 2, 0x80, 0x01, 7], 2), Ok((128, 4)));
    assert_eq!(decode_compact_u16(&[1, 2, 3], 1), Ok((2, 2)));
}

#[test]
fn compact_u16_short_input_is_incomplete() {
    assert_eq!(decode_compact_u16(&[], 0), Err(DecodeError::Incomplete));
    assert_eq!(decode_compact_u16(&[0x80], 0), Err(DecodeError::Incomplete));
    assert_eq!(decode_compact_u16(&[0x80, 0x80], 0), Err(DecodeError::Incomplete));
    assert_eq!(decode_compact_u16(&[1, 2], 2), Err(DecodeError::Incomplete));
    assert_eq!(decode_compact_u16(&[1, 2], 9), Err(DecodeError::Incomplete));
}
