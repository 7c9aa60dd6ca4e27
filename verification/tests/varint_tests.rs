use record_codec::error::DecodeError;
use record_codec::varint::varint;
use record_codec::varint::varint_at;
use record_codec::varint::varint_encode;

fn round_trip(v: u64) {
    let enc = varint_encode(v);
    let (decoded, rest) = varint(&enc).expect("canonical encoding must decode");
    assert_eq!(decoded, v);
    assert!(rest.is_empty());
    let re = varint_encode(decoded);
    assert_eq!(re, enc);
}

#[test]
fn varint_round_trip_edge_values() {
    round_trip(0);
    round_trip(1);
    round_trip(127);
    round_trip(128);
    round_trip(300);
    round_trip(16383);
    round_trip(16384);
    round_trip(0x00FF_FFFF_FFFF_FFFF);
    round_trip(0x0100_0000_0000_0000);
    round_trip(u64::MAX);
}

#[test]
fn varint_canonical_bytes() {
    assert_eq!(varint_encode(0), vec![0x00]);
    assert_eq!(varint_encode(7), vec![0x07]);
    assert_eq!(varint_encode(127), vec![0x7F]);
    assert_eq!(varint_encode(128), vec![0x81, 0x00]);
    assert_eq!(varint_encode(300), vec![0x82, 0x2C]);
    assert_eq!(varint_encode(u64::MAX), vec![0xFF; 9]);
}

#[test]
fn varint_decodes_single_byte() {
    let (v, rest) = varint(&[0x07, 0x99]).unwrap();
    assert_eq!(v, 7);
    assert_eq!(rest, &[0x99]);
}

#[test]
fn varint_decodes_two_bytes() {
    let (v, rest) = varint(&[0x82, 0x2C]).unwrap();
    assert_eq!(v, 300);
    assert!(rest.is_empty());
}

#[test]
fn varint_ninth_byte_uses_all_bits() {
    let bytes = [0xFF; 9];
    let (v, rest) = varint(&bytes).unwrap();
    assert_eq!(v, u64::MAX);
    assert!(rest.is_empty());
}

#[test]
fn varint_truncated_inputs() {
    assert_eq!(varint(&[]), Err(DecodeError::Truncated));
    assert_eq!(varint(&[0x80]).unwrap_err(), DecodeError::Truncated);
    assert_eq!(varint(&[0x80; 8]).unwrap_err(), DecodeError::Truncated);
}

#[test]
fn varint_at_reads_mid_slice() {
    let bytes = [0x00, 0x82, 0x2C, 0x07];
    let (v, end) = varint_at(&bytes, 1).unwrap();
    assert_eq!(v, 300);
    assert_eq!(end, 3);
    assert_eq!(varint_at(&bytes, 4).unwrap_err(), DecodeError::Truncated);
}
