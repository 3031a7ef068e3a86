use tower_grpc::bin_header::{decode_bin, encode_bin};

#[test]
fn base64_known_values() {
    assert_eq!(encode_bin(b""), b"".to_vec());
    assert_eq!(encode_bin(b"f"), b"Zg==".to_vec());
    assert_eq!(encode_bin(b"fo"), b"Zm8=".to_vec());
    assert_eq!(encode_bin(b"foo"), b"Zm9v".to_vec());
    assert_eq!(encode_bin(b"foobar"), b"Zm9vYmFy".to_vec());
    assert_eq!(encode_bin(&[0xfb, 0xff]), b"+/8=".to_vec());
}

#[test]
fn base64_round_trip() {
    let data: Vec<u8> = (0..=255u8).collect();
    for n in 0..data.len() {
        assert_eq!(decode_bin(&encode_bin(&data[..n])), Some(data[..n].to_vec()));
    }
}

#[test]
fn base64_refuses_bad_text() {
    assert_eq!(decode_bin(b"Zm9"), None);
    assert_eq!(decode_bin(b"Zm9v!A=="), None);
    assert_eq!(decode_bin(b"Zg==Zg=="), None);
    assert_eq!(decode_bin(b"Zm9vYmFy"), Some(b"foobar".to_vec()));
}
