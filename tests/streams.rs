use tower_grpc::codec::{encode_frame, FrameDecodeError};
use tower_grpc::decoder::{decode_all, Decoder};
use tower_grpc::encoder::{Demand, Encoder, Output, SourceItem};
use tower_grpc::status::{Code, Status, StatusMetadata};

fn body(payloads: &[&[u8]]) -> Vec<u8> {
    let mut out = Vec::new();
    for p in payloads {
        out.extend(encode_frame(p, 1024).unwrap());
    }
    out
}

fn ok_trailers() -> Option<StatusMetadata> {
    Some(Status::ok().to_metadata())
}

#[test]
fn chunking_does_not_change_the_result() {
    let payloads: Vec<&[u8]> = vec![b"a", b"bc", b"", b"a longer payload"];
    let bytes = body(&payloads);
    let expected: Vec<Vec<u8>> = payloads.iter().map(|p| p.to_vec()).collect();
    let whole = vec![bytes.clone()];
    let singles: Vec<Vec<u8>> = bytes.iter().map(|b| vec![*b]).collect();
    let threes: Vec<Vec<u8>> = bytes.chunks(3).map(|c| c.to_vec()).collect();
    let sevens: Vec<Vec<u8>> = bytes.chunks(7).map(|c| c.to_vec()).collect();
    let mut with_empty = vec![Vec::new()];
    with_empty.extend(threes.clone());
    with_empty.push(Vec::new());
    for chunks in [whole, singles, threes, sevens, with_empty] {
        let (msgs, status) = decode_all(&chunks, ok_trailers(), 1024);
        assert_eq!(msgs, expected);
        assert_eq!(status.code, Code::Success);
    }
}

#[test]
fn decoder_hands_out_frames_as_they_complete() {
    let bytes = body(&[b"xy", b"z"]);
    let mut d = Decoder::new(64);
    d.push(&bytes[..4]);
    assert_eq!(d.next_message(), Err(FrameDecodeError::Incomplete));
    d.push(&bytes[4..6]);
    assert_eq!(d.next_message(), Err(FrameDecodeError::Incomplete));
    d.push(&bytes[6..9]);
    assert_eq!(d.next_message(), Ok(b"xy".to_vec()));
    assert_eq!(d.next_message(), Err(FrameDecodeError::Incomplete));
    d.push(&bytes[9..]);
    assert_eq!(d.next_message(), Ok(b"z".to_vec()));
    assert_eq!(d.next_message(), Err(FrameDecodeError::Incomplete));
    assert_eq!(d.finish(ok_trailers()).code, Code::Success);
}

#[test]
fn trailer_status_is_the_terminal_event() {
    let bytes = body(&[b"one"]);
    let md = Some(Status::new(Code::PermissionDenied, b"denied".to_vec()).to_metadata());
    let (msgs, status) = decode_all(&vec![bytes], md, 64);
    assert_eq!(msgs, vec![b"one".to_vec()]);
    assert_eq!(status.code, Code::PermissionDenied);
    assert_eq!(status.message, b"denied".to_vec());
}

#[test]
fn cut_off_frame_without_trailers_is_internal() {
    let bytes = body(&[b"one", b"two"]);
    let (msgs, status) = decode_all(&vec![bytes[..10].to_vec()], None, 64);
    assert_eq!(msgs, vec![b"one".to_vec()]);
    assert_eq!(status.code, Code::Internal);
}

#[test]
fn clean_end_without_trailers_is_not_success() {
    let (msgs, status) = decode_all(&vec![body(&[b"one"])], None, 64);
    assert_eq!(msgs.len(), 1);
    assert_eq!(status.code, Code::Unknown);
}

#[test]
fn corrupt_frame_is_internal_even_with_ok_trailers() {
    let mut bytes = body(&[b"one"]);
    bytes.extend_from_slice(&[1, 0, 0, 0, 0]);
    let (msgs, status) = decode_all(&vec![bytes], ok_trailers(), 64);
    assert_eq!(msgs, vec![b"one".to_vec()]);
    assert_eq!(status.code, Code::Internal);
}

#[test]
fn oversized_frame_stops_decoding() {
    let bytes = body(&[b"0123456789"]);
    let (msgs, status) = decode_all(&vec![bytes], ok_trailers(), 4);
    assert!(msgs.is_empty());
    assert_eq!(status.code, Code::Internal);
}

#[test]
fn empty_stream_with_ok_trailers() {
    let (msgs, status) = decode_all(&vec![], ok_trailers(), 4);
    assert!(msgs.is_empty());
    assert_eq!(status.code, Code::Success);
}

#[test]
fn encoder_holds_at_most_one_message() {
    let mut e = Encoder::new(64);
    let mut frames = 0usize;
    for i in 0..10_000u32 {
        assert_eq!(e.buffered(), 0);
        assert_eq!(e.demand(), Demand::Pull);
        assert_eq!(e.buffered(), 1);
        assert_eq!(e.demand(), Demand::Pull);
        assert_eq!(e.buffered(), 1);
        match e.supply(SourceItem::Message(i.to_be_bytes().to_vec())) {
            Output::Frame(f) => {
                assert_eq!(f, encode_frame(&i.to_be_bytes(), 64).unwrap());
                frames += 1;
            }
            Output::Trailers(_) => panic!("unexpected trailer"),
        }
        assert!(e.buffered() <= 1);
    }
    assert_eq!(frames, 10_000);
    assert_eq!(e.demand(), Demand::Pull);
    match e.supply(SourceItem::End(Status::ok())) {
        Output::Trailers(s) => assert_eq!(s.code, Code::Success),
        Output::Frame(_) => panic!("unexpected frame"),
    }
    assert!(e.is_finished());
    assert_eq!(e.demand(), Demand::Finished);
    assert_eq!(e.buffered(), 0);
}

#[test]
fn encoder_failure_is_one_internal_trailer() {
    let mut e = Encoder::new(2);
    assert_eq!(e.demand(), Demand::Pull);
    match e.supply(SourceItem::Message(b"too long".to_vec())) {
        Output::Trailers(s) => assert_eq!(s.code, Code::Internal),
        Output::Frame(_) => panic!("unexpected frame"),
    }
    assert_eq!(e.demand(), Demand::Finished);
    assert_eq!(e.demand(), Demand::Finished);
}

#[test]
fn encoder_passes_source_failure_through() {
    let mut e = Encoder::new(16);
    e.demand();
    match e.supply(SourceItem::End(Status::new(Code::Aborted, b"stop".to_vec()))) {
        Output::Trailers(s) => {
            assert_eq!(s.code, Code::Aborted);
            assert_eq!(s.message, b"stop".to_vec());
        }
        Output::Frame(_) => panic!("unexpected frame"),
    }
    assert!(e.is_finished());
}
