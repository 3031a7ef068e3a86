use tower_grpc::client::{ClientCall, ClientStep, TransportFault};
use tower_grpc::codec::encode_frame;
use tower_grpc::decoder::decode_all;
use tower_grpc::message::{decode_payload, encode_message, encode_payload};
use tower_grpc::server::{HandlerItem, Phase, RequestStep, ServerCall, Shape, Write};
use tower_grpc::status::{Code, Status, StatusMetadata};

fn trailer_code(w: &Write) -> Option<Code> {
    match w {
        Write::Trailers(s) => Some(s.code),
        _ => None,
    }
}

#[test]
fn unary_with_no_request_is_invalid_argument() {
    let mut call = ServerCall::new(Shape::Unary, 64);
    match call.end_of_request(true) {
        RequestStep::Reject(s) => assert_eq!(s.code, Code::InvalidArgument),
        _ => panic!("expected a refusal"),
    }
    assert_eq!(call.current_phase(), Phase::Completed);
}

#[test]
fn unary_with_two_requests_is_invalid_argument() {
    let mut call = ServerCall::new(Shape::Unary, 64);
    assert!(matches!(call.receive_request(b"a".to_vec()), RequestStep::Buffered));
    match call.receive_request(b"b".to_vec()) {
        RequestStep::Reject(s) => assert_eq!(s.code, Code::InvalidArgument),
        _ => panic!("expected a refusal"),
    }
    assert!(matches!(call.end_of_request(true), RequestStep::Ignored));
    assert!(call.respond(HandlerItem::Message(b"x".to_vec())).is_empty());
}

#[test]
fn unary_response_writes_headers_frame_trailer() {
    let mut call = ServerCall::new(Shape::Unary, 64);
    call.receive_request(b"req".to_vec());
    match call.end_of_request(true) {
        RequestStep::Invoke(m) => assert_eq!(m, b"req".to_vec()),
        _ => panic!("expected the handler to be invoked"),
    }
    let w = call.respond(HandlerItem::Message(b"resp".to_vec()));
    assert_eq!(w.len(), 3);
    assert!(matches!(w[0], Write::Headers));
    match &w[1] {
        Write::Frame(f) => assert_eq!(f, &encode_frame(b"resp", 64).unwrap()),
        _ => panic!("expected a frame"),
    }
    assert_eq!(trailer_code(&w[2]), Some(Code::Success));
    assert_eq!(call.current_phase(), Phase::Completed);
}

#[test]
fn handler_fault_becomes_internal() {
    let mut call = ServerCall::new(Shape::Bidi, 64);
    assert_eq!(call.current_phase(), Phase::Invoking);
    let w = call.respond(HandlerItem::Fault);
    assert_eq!(w.len(), 1);
    assert_eq!(trailer_code(&w[0]), Some(Code::Internal));
}

#[test]
fn handler_status_passes_through() {
    let mut call = ServerCall::new(Shape::ServerStreaming, 64);
    call.receive_request(b"r".to_vec());
    call.end_of_request(true);
    let w = call.respond(HandlerItem::Status(Status::new(Code::NotFound, b"gone".to_vec())));
    match &w[0] {
        Write::Trailers(s) => {
            assert_eq!(s.code, Code::NotFound);
            assert_eq!(s.message, b"gone".to_vec());
        }
        _ => panic!("expected a trailer"),
    }
}

#[test]
fn single_response_without_response_is_internal() {
    let mut call = ServerCall::new(Shape::ClientStreaming, 64);
    assert!(matches!(call.receive_request(b"a".to_vec()), RequestStep::Forward(_)));
    assert!(matches!(call.end_of_request(true), RequestStep::Close));
    let w = call.respond(HandlerItem::Done);
    assert_eq!(trailer_code(&w[0]), Some(Code::Internal));
}

#[test]
fn bad_request_frames_refuse_the_call() {
    let mut call = ServerCall::new(Shape::Bidi, 64);
    match call.end_of_request(false) {
        RequestStep::Reject(s) => assert_eq!(s.code, Code::Internal),
        _ => panic!("expected a refusal"),
    }
}

#[test]
fn discarded_server_stream_writes_nothing_more() {
    let mut call = ServerCall::new(Shape::ServerStreaming, 64);
    call.receive_request(b"r".to_vec());
    call.end_of_request(true);
    let first = call.respond(HandlerItem::Message(b"1".to_vec()));
    assert_eq!(first.len(), 2);
    assert!(matches!(first[0], Write::Headers));
    let second = call.respond(HandlerItem::Message(b"2".to_vec()));
    assert_eq!(second.len(), 1);
    assert!(call.cancel());
    assert!(call.respond(HandlerItem::Message(b"3".to_vec())).is_empty());
    assert!(call.respond(HandlerItem::Done).is_empty());
    assert!(!call.cancel());
}

#[test]
fn streaming_ends_with_ok() {
    let mut call = ServerCall::new(Shape::Bidi, 64);
    let w = call.respond(HandlerItem::Message(b"1".to_vec()));
    assert_eq!(w.len(), 2);
    let w = call.respond(HandlerItem::Done);
    assert_eq!(w.len(), 1);
    assert_eq!(trailer_code(&w[0]), Some(Code::Success));
}

#[test]
fn oversized_response_is_internal() {
    let mut call = ServerCall::new(Shape::Bidi, 2);
    let w = call.respond(HandlerItem::Message(b"long".to_vec()));
    assert_eq!(w.len(), 1);
    assert_eq!(trailer_code(&w[0]), Some(Code::Internal));
}

#[test]
fn read_fault_after_two_of_five() {
    let mut call = ClientCall::new(Shape::ServerStreaming);
    let mut delivered = Vec::new();
    let mut terminals = Vec::new();
    let events: Vec<Option<Vec<u8>>> = vec![Some(b"1".to_vec()), Some(b"2".to_vec()), None];
    for e in events {
        let step = match e {
            Some(m) => call.on_message(m),
            None => call.on_fault(TransportFault::Reset),
        };
        match step {
            ClientStep::Deliver(m) => delivered.push(m),
            ClientStep::Terminal(s) => terminals.push(s.code),
            _ => {}
        }
    }
    for late in [b"3".to_vec(), b"4".to_vec(), b"5".to_vec()] {
        assert!(matches!(call.on_message(late), ClientStep::Ignored));
    }
    assert!(matches!(call.on_status(Status::ok()), ClientStep::Ignored));
    assert_eq!(delivered, vec![b"1".to_vec(), b"2".to_vec()]);
    assert_eq!(terminals, vec![Code::Unavailable]);
    assert!(call.is_finished());
}

#[test]
fn timeout_is_deadline_exceeded() {
    let mut call = ClientCall::new(Shape::Unary);
    match call.on_fault(TransportFault::Timeout) {
        ClientStep::Terminal(s) => assert_eq!(s.code, Code::DeadlineExceeded),
        _ => panic!("expected a terminal status"),
    }
    match ClientCall::new(Shape::Bidi).on_fault(TransportFault::ConnectFailed) {
        ClientStep::Terminal(s) => assert_eq!(s.code, Code::Unavailable),
        _ => panic!("expected a terminal status"),
    }
}

#[test]
fn unary_ok_without_response_is_internal() {
    let mut call = ClientCall::new(Shape::Unary);
    match call.on_status(Status::ok()) {
        ClientStep::Terminal(s) => assert_eq!(s.code, Code::Internal),
        _ => panic!("expected a terminal status"),
    }
}

#[test]
fn unary_second_response_is_internal() {
    let mut call = ClientCall::new(Shape::Unary);
    assert!(matches!(call.on_message(b"a".to_vec()), ClientStep::Held));
    match call.on_message(b"b".to_vec()) {
        ClientStep::Terminal(s) => assert_eq!(s.code, Code::Internal),
        _ => panic!("expected a terminal status"),
    }
}

#[test]
fn unary_failure_status_drops_the_value() {
    let mut call = ClientCall::new(Shape::ClientStreaming);
    call.on_message(b"a".to_vec());
    match call.on_status(Status::with_code(Code::Aborted)) {
        ClientStep::Terminal(s) => assert_eq!(s.code, Code::Aborted),
        _ => panic!("expected a terminal status"),
    }
}

#[test]
fn hello_world_unary_call() {
    // client: frame the request
    let request = encode_message(&"World".to_string(), 4096).unwrap();
    // server: decode the request body and run the handler
    let (payloads, _) = decode_all(&vec![request], None, 4096);
    let mut server = ServerCall::new(Shape::Unary, 4096);
    for p in payloads {
        assert!(matches!(server.receive_request(p), RequestStep::Buffered));
    }
    let name = match server.end_of_request(true) {
        RequestStep::Invoke(p) => decode_payload(&p).unwrap(),
        _ => panic!("expected the handler to be invoked"),
    };
    let reply = encode_payload(&format!("Hello {}", name));
    let writes = server.respond(HandlerItem::Message(reply));
    let mut body = Vec::new();
    let mut trailers: Option<StatusMetadata> = None;
    for w in writes {
        match w {
            Write::Headers => {}
            Write::Frame(f) => body.push(f),
            Write::Trailers(s) => trailers = Some(s.to_metadata()),
        }
    }
    // client: decode the response and complete the call
    let (responses, status) = decode_all(&body, trailers, 4096);
    assert_eq!(status.code, Code::Success);
    let mut client = ClientCall::new(Shape::Unary);
    for r in responses {
        assert!(matches!(client.on_message(r), ClientStep::Held));
    }
    match client.on_status(status) {
        ClientStep::Reply(p) => assert_eq!(decode_payload(&p).unwrap(), "Hello World"),
        _ => panic!("expected the reply"),
    }
}
