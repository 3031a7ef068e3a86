//! Messages of a single text field (field 1), serialized with prost, and
//! their frames.
use vstd::prelude::*;
use crate::codec::{encode_frame, frame_bytes, parse_frame, FrameDecodeError, EncodeError, FrameParse};
use crate::codec::decode_frame;

verus! {

#[verifier::external_type_specification]
#[verifier::external_body]
pub struct ExProstDecodeError(prost::DecodeError);

/// The protobuf serialization of a message whose field 1 holds `s`.
pub uninterp spec fn text_encoding(s: Seq<char>) -> Seq<u8>;

/// The text that protobuf bytes hold in field 1, or `None` when prost
/// refuses them.
pub uninterp spec fn text_parse(b: Seq<u8>) -> Option<Seq<char>>;

/// Relies on prost's `Message::encode_to_vec` for `String` (a message whose
/// field 1 holds the text): its bytes are a function of the text.
#[verifier::external_body]
fn serialize_text(m: &String) -> (r: Vec<u8>)
    ensures
        r@ == text_encoding(m@),
{
    prost::Message::encode_to_vec(m)
}

/// Relies on prost's `Message::decode` for `String`: whether it succeeds, and
/// the text it reads, are a function of the bytes.
#[verifier::external_body]
fn parse_text(b: &[u8]) -> (r: Result<String, prost::DecodeError>)
    ensures
        r is Ok == text_parse(b@) is Some,
        r is Ok ==> text_parse(b@) == Some(r->Ok_0@),
{
    <String as prost::Message>::decode(b)
}

/// Serializes a text message into a frame payload.
pub fn encode_payload(m: &String) -> (r: Vec<u8>)
    ensures
        r@ == text_encoding(m@),
{
    serialize_text(m)
}

/// Reads a frame payload as a text message; bytes that prost refuses are
/// `Corrupt`.
pub fn decode_payload(payload: &[u8]) -> (r: Result<String, FrameDecodeError>)
    ensures
        match text_parse(payload@) {
            Some(s) => r matches Ok(t) && t@ == s,
            None => r == Err::<String, FrameDecodeError>(FrameDecodeError::Corrupt),
        },
{
    match parse_text(payload) {
        Ok(s) => Ok(s),
        Err(_) => Err(FrameDecodeError::Corrupt),
    }
}

/// Serializes a text message and frames it.
pub fn encode_message(m: &String, max_len: usize) -> (r: Result<Vec<u8>, EncodeError>)
    ensures
        ({
            let p = text_encoding(m@);
            &&& p.len() <= max_len && p.len() < 0x1_0000_0000 ==> (r matches Ok(v) && v@
                == frame_bytes(p))
            &&& !(p.len() <= max_len && p.len() < 0x1_0000_0000) ==> r == Err::<
                Vec<u8>,
                EncodeError,
            >(EncodeError::LengthExceeded)
        }),
{
    let payload = serialize_text(m);
    encode_frame(payload.as_slice(), max_len)
}

/// What the first frame of `buf` reads as, as a text message.
pub open spec fn message_parse(buf: Seq<u8>, max_len: nat) -> Result<(Seq<char>, nat), FrameDecodeError> {
    match parse_frame(buf, max_len) {
        FrameParse::Frame(p, n) => match text_parse(p) {
            Some(s) => Ok((s, n)),
            None => Err(FrameDecodeError::Corrupt),
        },
        FrameParse::Error(e) => Err(e),
    }
}

/// Reads the first frame of `buf` as a text message: the message and the
/// number of bytes its frame takes, or why there is none; a payload that
/// prost refuses is `Corrupt`.
pub fn decode_message(buf: &[u8], max_len: usize) -> (r: Result<(String, usize), FrameDecodeError>)
    ensures
        match message_parse(buf@, max_len as nat) {
            Ok((s, n)) => r matches Ok((t, k)) && t@ == s && k == n,
            Err(e) => r == Err::<(String, usize), FrameDecodeError>(e),
        },
{
    match decode_frame(buf, max_len) {
        Ok((payload, n)) => match decode_payload(payload.as_slice()) {
            Ok(s) => Ok((s, n)),
            Err(e) => Err(e),
        },
        Err(e) => Err(e),
    }
}

} // verus!
