use tower_grpc::codec::{decode_frame, encode_frame, EncodeError, FrameDecodeError};
use tower_grpc::message::{decode_message, decode_payload, encode_message, encode_payload};

#[test]
fn frame_has_flag_length_and_payload() {
    let f = encode_frame(b"abc", 100).unwrap();
    assert_eq!(f, vec![0, 0, 0, 0, 3, b'a', b'b', b'c']);
}

#[test]
fn frame_length_is_big_endian() {
    let payload = vec![7u8; 300];
    let f = encode_frame(&payload, 1000).unwrap();
    assert_eq!(&f[..5], &[0, 0, 0, 1, 44]);
    assert_eq!(f.len(), 305);
}

#[test]
fn empty_payload_frame() {
    let f = encode_frame(b"", 0).unwrap();
    assert_eq!(f, vec![0, 0, 0, 0, 0]);
    assert_eq!(decode_frame(&f, 0), Ok((vec![], 5)));
}

#[test]
fn frame_round_trip_keeps_rest() {
    let mut f = encode_frame(b"hello", 16).unwrap();
    f.extend_from_slice(&[0, 0]);
    assert_eq!(decode_frame(&f, 16), Ok((b"hello".to_vec(), 10)));
}

#[test]
fn encode_refuses_payload_over_maximum() {
    assert_eq!(encode_frame(b"abcde", 4), Err(EncodeError::LengthExceeded));
    assert!(encode_frame(b"abcd", 4).is_ok());
}

#[test]
fn decode_needs_five_header_bytes() {
    assert_eq!(decode_frame(&[0, 0, 0], 10), Err(FrameDecodeError::Incomplete));
    assert_eq!(decode_frame(&[], 10), Err(FrameDecodeError::Incomplete));
}

#[test]
fn decode_waits_for_whole_payload() {
    assert_eq!(decode_frame(&[0, 0, 0, 0, 5, 1, 2], 10), Err(FrameDecodeError::Incomplete));
}

#[test]
fn decode_refuses_compression_flag() {
    assert_eq!(decode_frame(&[1, 0, 0, 0, 0], 10), Err(FrameDecodeError::Corrupt));
}

#[test]
fn decode_refuses_declared_length_over_maximum() {
    assert_eq!(decode_frame(&[0, 0, 0, 0, 10], 4), Err(FrameDecodeError::LengthExceeded));
}

#[test]
fn text_payload_is_protobuf_field_one() {
    let p = encode_payload(&"World".to_string());
    assert_eq!(p, vec![0x0A, 5, b'W', b'o', b'r', b'l', b'd']);
    assert_eq!(encode_payload(&String::new()), Vec::<u8>::new());
}

#[test]
fn text_payload_round_trip() {
    for s in ["", "a", "Hello World", "h\u{e9}llo"] {
        let p = encode_payload(&s.to_string());
        assert_eq!(decode_payload(&p).unwrap(), s);
    }
}

#[test]
fn text_payload_refused_is_corrupt() {
    assert_eq!(decode_payload(&[0x0A, 9, b'x']), Err(FrameDecodeError::Corrupt));
}

#[test]
fn message_frame_round_trip() {
    let f = encode_message(&"Hello World".to_string(), 1024).unwrap();
    assert_eq!(f[0], 0);
    assert_eq!(f[4] as usize, f.len() - 5);
    let (m, n) = decode_message(&f, 1024).unwrap();
    assert_eq!(m, "Hello World");
    assert_eq!(n, f.len());
}

#[test]
fn message_over_maximum_is_refused() {
    assert_eq!(encode_message(&"Hello World".to_string(), 4), Err(EncodeError::LengthExceeded));
}
