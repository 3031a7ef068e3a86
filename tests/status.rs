use tower_grpc::status::{
    code_from_text, code_to_text, escape_message, unescape_message, Code, Status, StatusMetadata,
};

fn all_codes() -> Vec<Code> {
    vec![
        Code::Success,
        Code::Cancelled,
        Code::Unknown,
        Code::InvalidArgument,
        Code::DeadlineExceeded,
        Code::NotFound,
        Code::AlreadyExists,
        Code::PermissionDenied,
        Code::ResourceExhausted,
        Code::FailedPrecondition,
        Code::Aborted,
        Code::OutOfRange,
        Code::Unimplemented,
        Code::Internal,
        Code::Unavailable,
        Code::DataLoss,
        Code::Unauthenticated,
    ]
}

#[test]
fn codes_have_canonical_values() {
    for (i, c) in all_codes().into_iter().enumerate() {
        assert_eq!(c.value() as usize, i);
        assert_eq!(Code::from_value(i as u32), Some(c));
    }
    assert_eq!(Code::from_value(17), None);
}

#[test]
fn every_code_survives_metadata() {
    for c in all_codes() {
        let s = Status::new(c, b"it went 100% wrong\n\xe2\x9c\x93".to_vec());
        let back = Status::from_metadata(&s.to_metadata());
        assert_eq!(back.code, c);
        assert_eq!(back.message, s.message);
        assert_eq!(back.details, None);
        let s = s.with_details(vec![0, 1, 2, 250, 255]);
        let back = Status::from_metadata(&s.to_metadata());
        assert_eq!(back.code, c);
        assert_eq!(back.details, Some(vec![0, 1, 2, 250, 255]));
    }
}

#[test]
fn details_travel_as_base64() {
    let md = Status::with_code(Code::Internal).with_details(b"Man".to_vec()).to_metadata();
    assert_eq!(md.grpc_status_details_bin, Some(b"TWFu".to_vec()));
    assert_eq!(Status::ok().to_metadata().grpc_status_details_bin, None);
}

#[test]
fn unreadable_details_are_dropped() {
    let md = StatusMetadata {
        grpc_status: Some(b"3".to_vec()),
        grpc_message: None,
        grpc_status_details_bin: Some(b"T!Fu".to_vec()),
    };
    let s = Status::from_metadata(&md);
    assert_eq!(s.code, Code::InvalidArgument);
    assert_eq!(s.details, None);
}

#[test]
fn status_code_text_is_decimal() {
    assert_eq!(code_to_text(Code::Success), b"0".to_vec());
    assert_eq!(code_to_text(Code::Unavailable), b"14".to_vec());
    assert_eq!(code_from_text(b"14"), Code::Unavailable);
    assert_eq!(code_from_text(b"05"), Code::NotFound);
}

#[test]
fn unreadable_status_is_unknown() {
    assert_eq!(code_from_text(b""), Code::Unknown);
    assert_eq!(code_from_text(b"abc"), Code::Unknown);
    assert_eq!(code_from_text(b"1x"), Code::Unknown);
    assert_eq!(code_from_text(b"17"), Code::Unknown);
    assert_eq!(code_from_text(b"99999999999999999999"), Code::Unknown);
    let md = StatusMetadata { grpc_status: None, grpc_message: None, grpc_status_details_bin: None };
    let s = Status::from_metadata(&md);
    assert_eq!(s.code, Code::Unknown);
    assert!(s.message.is_empty());
}

#[test]
fn message_escaping() {
    assert_eq!(escape_message(b"plain text"), b"plain text".to_vec());
    assert_eq!(escape_message(b"50%\n"), b"50%25%0A".to_vec());
    assert_eq!(escape_message(&[0xff, 0x7f]), b"%FF%7F".to_vec());
    assert_eq!(unescape_message(b"50%25%0A"), b"50%\n".to_vec());
    assert_eq!(unescape_message(b"%e2%9C%93"), vec![0xe2, 0x9c, 0x93]);
    assert_eq!(unescape_message(b"100%"), b"100%".to_vec());
    assert_eq!(unescape_message(b"%zz"), b"%zz".to_vec());
}

#[test]
fn metadata_entries() {
    let md = Status::new(Code::NotFound, b"no such user".to_vec()).to_metadata();
    assert_eq!(md.grpc_status, Some(b"5".to_vec()));
    assert_eq!(md.grpc_message, Some(b"no such user".to_vec()));
}

#[test]
fn status_helpers() {
    assert!(Status::ok().is_ok());
    assert_eq!(Status::with_code(Code::Aborted).code(), Code::Aborted);
    let s = Status::new(Code::Internal, b"x".to_vec());
    let d = s.duplicate();
    assert_eq!(d.code, Code::Internal);
    assert_eq!(d.message, b"x".to_vec());
}
