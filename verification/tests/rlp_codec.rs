use blob_tx::rlp::error::DecodeError;
use blob_tx::rlp::fixed::{bytes_eq, decode_fixed, encode_fixed};
use blob_tx::rlp::header::Header;
use blob_tx::rlp::list::{decode_fixed_list, encode_fixed_list, fixed_list_length};
use blob_tx::rlp::string::{decode_str, encode_str, str_length};
use blob_tx::rlp::uint::{
    decode_bool, decode_u128, decode_u64, encode_bool, encode_u64, encode_uint, uint_length,
};

fn header_bytes(list: bool, payload_length: usize) -> Vec<u8> {
    let mut out = Vec::new();
    Header { list, payload_length }.encode(&mut out);
    out
}

#[test]
fn header_short_forms() {
    assert_eq!(header_bytes(false, 0), vec![0x80]);
    assert_eq!(header_bytes(true, 0), vec![0xC0]);
    assert_eq!(header_bytes(false, 55), vec![0xB7]);
    assert_eq!(header_bytes(true, 55), vec![0xF7]);
}

#[test]
fn header_long_forms() {
    assert_eq!(header_bytes(false, 56), vec![0xB8, 56]);
    assert_eq!(header_bytes(true, 56), vec![0xF8, 56]);
    assert_eq!(header_bytes(false, 1024), vec![0xB9, 0x04, 0x00]);
    assert_eq!(header_bytes(false, 131072), vec![0xBA, 0x02, 0x00, 0x00]);
    assert_eq!(header_bytes(true, 0x0102_0304), vec![0xFB, 1, 2, 3, 4]);
}

#[test]
fn header_length_is_what_encode_writes() {
    for payload_length in [0usize, 1, 55, 56, 255, 256, 65535, 65536, 1 << 24, usize::MAX] {
        for list in [false, true] {
            let h = Header { list, payload_length };
            assert_eq!(h.length(), header_bytes(list, payload_length).len());
        }
    }
}

#[test]
fn header_decode_reads_back() {
    let mut input = header_bytes(true, 60);
    input.extend_from_slice(&[7u8; 60]);
    input.push(9);
    let mut buf: &[u8] = &input;
    assert_eq!(Header::decode(&mut buf), Ok(Header { list: true, payload_length: 60 }));
    assert_eq!(buf.len(), 61);
    assert_eq!(buf[0], 7);
}

#[test]
fn header_decode_single_byte_takes_nothing() {
    let input = [0x05u8, 0x06];
    let mut buf: &[u8] = &input;
    assert_eq!(Header::decode(&mut buf), Ok(Header { list: false, payload_length: 1 }));
    assert_eq!(buf, &input[..]);
}

#[test]
fn header_decode_refusals() {
    let cases: Vec<(Vec<u8>, DecodeError)> = vec![
        (vec![], DecodeError::InputTooShort),
        (vec![0x81], DecodeError::InputTooShort),
        (vec![0x81, 0x05], DecodeError::NonCanonicalSingleByte),
        (vec![0x83, 1, 2], DecodeError::InputTooShort),
        (vec![0xB8], DecodeError::InputTooShort),
        (vec![0xB8, 0x05, 1, 2, 3, 4, 5], DecodeError::NonCanonicalSize),
        (vec![0xB9, 0x00, 0x40], DecodeError::LeadingZero),
        (vec![0xB8, 56, 1, 2], DecodeError::InputTooShort),
        (vec![0xC3, 1, 2], DecodeError::InputTooShort),
        (vec![0xF8, 0x05, 1, 2, 3, 4, 5], DecodeError::NonCanonicalSize),
        (vec![0xF9, 0x00, 0x40], DecodeError::LeadingZero),
    ];
    for (input, expected) in cases {
        let mut buf: &[u8] = &input;
        assert_eq!(Header::decode(&mut buf), Err(expected), "{:?}", input);
        assert_eq!(buf, &input[..]);
    }
}

fn uint_bytes(n: u128) -> Vec<u8> {
    let mut out = Vec::new();
    encode_uint(n, &mut out);
    out
}

#[test]
fn uint_known_encodings() {
    assert_eq!(uint_bytes(0), vec![0x80]);
    assert_eq!(uint_bytes(1), vec![0x01]);
    assert_eq!(uint_bytes(0x7f), vec![0x7f]);
    assert_eq!(uint_bytes(0x80), vec![0x81, 0x80]);
    assert_eq!(uint_bytes(0xff), vec![0x81, 0xff]);
    assert_eq!(uint_bytes(1024), vec![0x82, 0x04, 0x00]);
    assert_eq!(uint_bytes(0xFFCCB5), vec![0x83, 0xff, 0xcc, 0xb5]);
    let mut max64 = vec![0x88];
    max64.extend_from_slice(&[0xff; 8]);
    assert_eq!(uint_bytes(u64::MAX as u128), max64);
    let mut max128 = vec![0x90];
    max128.extend_from_slice(&[0xff; 16]);
    assert_eq!(uint_bytes(u128::MAX), max128);
}

#[test]
fn uint_length_is_what_encode_writes() {
    for n in [0u128, 1, 0x7f, 0x80, 0xff, 0x100, 0xffff, 1 << 63, 1 << 64, u128::MAX] {
        assert_eq!(uint_length(n), uint_bytes(n).len());
    }
}

#[test]
fn u64_round_trip() {
    for n in [0u64, 1, 0x7f, 0x80, 255, 256, 1 << 32, u64::MAX] {
        let mut out = vec![0xAA];
        encode_u64(n, &mut out);
        out.push(0x55);
        let mut buf: &[u8] = &out[1..];
        assert_eq!(decode_u64(&mut buf), Ok(n));
        assert_eq!(buf, &[0x55][..]);
    }
}

#[test]
fn u128_round_trip() {
    for n in [0u128, 1, 0x80, 1 << 64, u128::MAX] {
        let out = uint_bytes(n);
        let mut buf: &[u8] = &out;
        assert_eq!(decode_u128(&mut buf), Ok(n));
        assert!(buf.is_empty());
    }
}

#[test]
fn uint_decode_refusals() {
    let mut nine = vec![0x89];
    nine.extend_from_slice(&[1u8; 9]);
    let mut buf: &[u8] = &nine;
    assert_eq!(decode_u64(&mut buf), Err(DecodeError::Overflow));
    assert_eq!(buf.len(), 10);
    let mut buf: &[u8] = &nine;
    assert_eq!(decode_u128(&mut buf), Ok(0x01_0101_0101_0101_0101));
    let mut seventeen = vec![0x91];
    seventeen.extend_from_slice(&[1u8; 17]);
    let mut buf: &[u8] = &seventeen;
    assert_eq!(decode_u128(&mut buf), Err(DecodeError::Overflow));
    let mut buf: &[u8] = &[0x82, 0x00, 0x01];
    assert_eq!(decode_u64(&mut buf), Err(DecodeError::LeadingZero));
    let mut buf: &[u8] = &[0x00];
    assert_eq!(decode_u64(&mut buf), Err(DecodeError::LeadingZero));
    let mut buf: &[u8] = &[0xC1, 0x01];
    assert_eq!(decode_u64(&mut buf), Err(DecodeError::UnexpectedList));
    let mut buf: &[u8] = &[];
    assert_eq!(decode_u64(&mut buf), Err(DecodeError::InputTooShort));
    let mut buf: &[u8] = &[0x81, 0x01];
    assert_eq!(decode_u64(&mut buf), Err(DecodeError::NonCanonicalSingleByte));
}

#[test]
fn bool_encodings() {
    let mut out = Vec::new();
    encode_bool(false, &mut out);
    encode_bool(true, &mut out);
    assert_eq!(out, vec![0x80, 0x01]);
    let mut buf: &[u8] = &out;
    assert_eq!(decode_bool(&mut buf), Ok(false));
    assert_eq!(decode_bool(&mut buf), Ok(true));
    assert!(buf.is_empty());
}

#[test]
fn bool_decode_refuses_other_numbers() {
    let mut buf: &[u8] = &[0x02];
    assert_eq!(
        decode_bool(&mut buf),
        Err(DecodeError::Custom("invalid bool value, must be 0 or 1"))
    );
    assert_eq!(buf, &[0x02][..]);
    let mut buf: &[u8] = &[0x82, 0x01, 0x00];
    assert_eq!(decode_bool(&mut buf), Err(DecodeError::Overflow));
}

fn str_bytes(data: &[u8]) -> Vec<u8> {
    let mut out = Vec::new();
    encode_str(data, &mut out);
    out
}

#[test]
fn str_known_encodings() {
    assert_eq!(str_bytes(b""), vec![0x80]);
    assert_eq!(str_bytes(b"dog"), vec![0x83, b'd', b'o', b'g']);
    assert_eq!(str_bytes(&[0x00]), vec![0x00]);
    assert_eq!(str_bytes(&[0x7f]), vec![0x7f]);
    assert_eq!(str_bytes(&[0x80]), vec![0x81, 0x80]);
    let long = [0x61u8; 56];
    let mut expected = vec![0xB8, 56];
    expected.extend_from_slice(&long);
    assert_eq!(str_bytes(&long), expected);
}

#[test]
fn str_round_trip_and_length() {
    for len in [0usize, 1, 2, 55, 56, 57, 255, 256, 70000] {
        let data: Vec<u8> = (0..len).map(|i| (i % 251) as u8 | 0x80).collect();
        let out = str_bytes(&data);
        assert_eq!(str_length(&data), out.len());
        let mut buf: &[u8] = &out;
        assert_eq!(decode_str(&mut buf), Ok(data));
        assert!(buf.is_empty());
    }
}

#[test]
fn str_decode_refuses_list() {
    let mut buf: &[u8] = &[0xC0];
    assert_eq!(decode_str(&mut buf), Err(DecodeError::UnexpectedList));
    assert_eq!(buf, &[0xC0][..]);
}

#[test]
fn fixed_round_trip() {
    let address = [0x11u8; 20];
    let mut out = Vec::new();
    encode_fixed(&address, &mut out);
    assert_eq!(out.len(), 21);
    assert_eq!(out[0], 0x94);
    let mut buf: &[u8] = &out;
    assert_eq!(decode_fixed::<20>(&mut buf), Ok(address));
    assert!(buf.is_empty());
}

#[test]
fn fixed_decode_refuses_other_widths() {
    let mut out = Vec::new();
    encode_fixed(&[0x11u8; 20], &mut out);
    let mut buf: &[u8] = &out;
    assert_eq!(decode_fixed::<32>(&mut buf), Err(DecodeError::UnexpectedLength));
    assert_eq!(buf.len(), 21);
    let mut buf: &[u8] = &[0xC0];
    assert_eq!(decode_fixed::<0>(&mut buf), Err(DecodeError::UnexpectedList));
}

#[test]
fn bytes_eq_compares_contents() {
    assert!(bytes_eq(&[1, 2, 3], &[1, 2, 3]));
    assert!(!bytes_eq(&[1, 2, 3], &[1, 2, 4]));
    assert!(!bytes_eq(&[1, 2, 3], &[1, 2]));
    assert!(bytes_eq(&[], &[]));
}

#[test]
fn fixed_list_known_encoding() {
    let items: Vec<[u8; 2]> = vec![[0xAA, 0xBB], [0xCC, 0xDD]];
    let mut out = Vec::new();
    encode_fixed_list(&items, &mut out);
    assert_eq!(out, vec![0xC6, 0x82, 0xAA, 0xBB, 0x82, 0xCC, 0xDD]);
    assert_eq!(fixed_list_length(&items), 7);
    let empty: Vec<[u8; 32]> = vec![];
    let mut out = Vec::new();
    encode_fixed_list(&empty, &mut out);
    assert_eq!(out, vec![0xC0]);
}

#[test]
fn fixed_list_round_trip() {
    let items: Vec<[u8; 32]> = (0..5u8).map(|i| [i; 32]).collect();
    let mut out = Vec::new();
    encode_fixed_list(&items, &mut out);
    assert_eq!(out.len(), 2 + 5 * 33);
    assert_eq!(fixed_list_length(&items), out.len());
    out.push(0x01);
    let mut buf: &[u8] = &out;
    assert_eq!(decode_fixed_list::<32>(&mut buf), Ok(items));
    assert_eq!(buf, &[0x01][..]);
}

#[test]
fn fixed_list_decode_refusals() {
    let mut buf: &[u8] = &[0x80];
    assert_eq!(decode_fixed_list::<32>(&mut buf), Err(DecodeError::UnexpectedString));
    let input = [0xC3u8, 0x82, 0xAA, 0xBB];
    let mut buf: &[u8] = &input;
    assert_eq!(decode_fixed_list::<32>(&mut buf), Err(DecodeError::UnexpectedLength));
    assert_eq!(buf, &input[..]);
    let input = [0xC2u8, 0x82, 0xAA, 0xBB];
    let mut buf: &[u8] = &input;
    assert_eq!(decode_fixed_list::<2>(&mut buf), Err(DecodeError::InputTooShort));
    assert_eq!(buf, &input[..]);
}
