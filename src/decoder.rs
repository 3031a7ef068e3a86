//! The message-stream decoder: byte chunks in, with no alignment to frame
//! boundaries, payloads out, and one terminal status.
use vstd::prelude::*;
use crate::codec::{copy_range, decode_frame, parse_frame, FrameDecodeError, FrameParse};
use crate::status::{status_from_metadata, status_of, Code, Status, StatusMetadata, StatusView};

verus! {

/// The payloads of the whole frames at the start of `bytes`, in order.
pub open spec fn stream_messages(bytes: Seq<u8>, max_len: nat) -> Seq<Seq<u8>>
    decreases bytes.len(),
{
    match parse_frame(bytes, max_len) {
        FrameParse::Frame(p, n) => if 0 < n <= bytes.len() {
            seq![p] + stream_messages(bytes.skip(n as int), max_len)
        } else {
            Seq::empty()
        },
        FrameParse::Error(_) => Seq::empty(),
    }
}

/// What is left of `bytes` after its whole frames.
pub open spec fn stream_tail(bytes: Seq<u8>, max_len: nat) -> Seq<u8>
    decreases bytes.len(),
{
    match parse_frame(bytes, max_len) {
        FrameParse::Frame(p, n) => if 0 < n <= bytes.len() {
            stream_tail(bytes.skip(n as int), max_len)
        } else {
            bytes
        },
        FrameParse::Error(_) => bytes,
    }
}

/// Why reading stops at the end of the whole frames: `Incomplete` when the
/// rest may still become a frame, else the fault in it.
pub open spec fn stream_stop(bytes: Seq<u8>, max_len: nat) -> FrameDecodeError {
    match parse_frame(stream_tail(bytes, max_len), max_len) {
        FrameParse::Error(e) => e,
        FrameParse::Frame(_, _) => FrameDecodeError::Incomplete,
    }
}

/// The terminal status of an inbound stream that carried `bytes` and ended
/// with the given trailers: a fault in the frames is `Internal`; otherwise
/// the trailers decide; with none, a cut-off frame is `Internal` and a clean
/// end is `Unknown`, since success is never inferred from the end alone.
pub open spec fn terminal_status(
    bytes: Seq<u8>,
    max_len: nat,
    trailers: Option<StatusMetadata>,
) -> StatusView {
    if stream_stop(bytes, max_len) != FrameDecodeError::Incomplete {
        status_of(Code::Internal, Seq::empty())
    } else {
        match trailers {
            Some(md) => status_from_metadata(md),
            None => if stream_tail(bytes, max_len).len() > 0 {
                status_of(Code::Internal, Seq::empty())
            } else {
                status_of(Code::Unknown, Seq::empty())
            },
        }
    }
}

proof fn lemma_parse_frame_pos(bytes: Seq<u8>, max_len: nat)
    ensures
        parse_frame(bytes, max_len) matches FrameParse::Frame(p, n) ==> 5 <= n <= bytes.len()
            && p == bytes.subrange(5, n as int),
{
}

/// Bytes made of whole frames, followed by more bytes, read as the frames of
/// each part in turn.
pub proof fn lemma_stream_concat(a: Seq<u8>, b: Seq<u8>, max_len: nat)
    requires
        stream_tail(a, max_len).len() == 0,
    ensures
        stream_messages(a + b, max_len) == stream_messages(a, max_len) + stream_messages(b, max_len),
        stream_tail(a + b, max_len) == stream_tail(b, max_len),
    decreases a.len(),
{
    lemma_parse_frame_pos(a, max_len);
    if a.len() == 0 {
        assert(a + b =~= b);
        assert(stream_messages(a, max_len) =~= Seq::<Seq<u8>>::empty());
        assert(stream_messages(a + b, max_len) =~= stream_messages(a, max_len) + stream_messages(b, max_len));
    } else {
        if let FrameParse::Frame(p, n) = parse_frame(a, max_len) {
            crate::codec::lemma_parse_frame_extend(a, b, max_len);
            lemma_parse_frame_pos(a + b, max_len);
            assert((a + b).skip(n as int) =~= a.skip(n as int) + b);
            lemma_stream_concat(a.skip(n as int), b, max_len);
            assert(stream_messages(a + b, max_len) =~= stream_messages(a, max_len)
                + stream_messages(b, max_len));
        }
    }
}

proof fn lemma_one_frame(buf: Seq<u8>, max_len: nat)
    requires
        parse_frame(buf, max_len) is Frame,
    ensures
        parse_frame(buf, max_len) matches FrameParse::Frame(p, n) && parse_frame(buf.subrange(0, n as int), max_len) == parse_frame(buf, max_len)
            && stream_messages(buf.subrange(0, n as int), max_len) == seq![p]
            && stream_tail(buf.subrange(0, n as int), max_len).len() == 0
            && stream_messages(buf, max_len) == seq![p] + stream_messages(buf.skip(n as int), max_len),
{
    lemma_parse_frame_pos(buf, max_len);
    if let FrameParse::Frame(p, n) = parse_frame(buf, max_len) {
        let f = buf.subrange(0, n as int);
        assert(f.subrange(5, n as int) =~= buf.subrange(5, n as int));
        assert(parse_frame(f, max_len) == parse_frame(buf, max_len));
        assert(f.skip(n as int) =~= Seq::<u8>::empty());
        assert(parse_frame(Seq::<u8>::empty(), max_len) is Error);
        assert(stream_messages(f.skip(n as int), max_len) =~= Seq::<Seq<u8>>::empty());
        assert(stream_messages(f, max_len) =~= seq![p]);
        assert(stream_tail(f.skip(n as int), max_len) =~= Seq::<u8>::empty());
    }
}

/// The decoder of one inbound message stream.
pub struct Decoder {
    buf: Vec<u8>,
    max_len: usize,
    received: Ghost<Seq<u8>>,
    consumed: Ghost<Seq<u8>>,
    delivered: Ghost<Seq<Seq<u8>>>,
}

impl Decoder {
    /// Every byte handed to the decoder so far.
    pub closed spec fn received(&self) -> Seq<u8> {
        self.received@
    }

    /// The payloads handed out so far.
    pub closed spec fn delivered(&self) -> Seq<Seq<u8>> {
        self.delivered@
    }

    pub closed spec fn max_len(&self) -> nat {
        self.max_len as nat
    }

    pub closed spec fn wf(&self) -> bool {
        &&& self.received@ == self.consumed@ + self.buf@
        &&& stream_tail(self.consumed@, self.max_len as nat).len() == 0
        &&& stream_messages(self.consumed@, self.max_len as nat) == self.delivered@
    }

    /// What has been handed out is the start of what the received bytes hold.
    pub proof fn lemma_delivered_prefix(&self)
        requires
            self.wf(),
        ensures
            self.delivered().len() <= stream_messages(self.received(), self.max_len()).len(),
            self.delivered() == stream_messages(self.received(), self.max_len()).subrange(
                0,
                self.delivered().len() as int,
            ),
    {
        lemma_stream_concat(self.consumed@, self.buf@, self.max_len as nat);
        assert(self.delivered() =~= stream_messages(self.received(), self.max_len()).subrange(
            0,
            self.delivered().len() as int,
        ));
    }

    /// A decoder that has received nothing, for payloads up to `max_len` bytes.
    pub fn new(max_len: usize) -> (r: Decoder)
        ensures
            r.wf(),
            r.received() == Seq::<u8>::empty(),
            r.delivered() == Seq::<Seq<u8>>::empty(),
            r.max_len() == max_len,
    {
        let r = Decoder {
            buf: Vec::new(),
            max_len,
            received: Ghost(Seq::empty()),
            consumed: Ghost(Seq::empty()),
            delivered: Ghost(Seq::empty()),
        };
        assert(r.received@ =~= r.consumed@ + r.buf@);
        r
    }

    /// Takes in the next chunk of bytes.
    pub fn push(&mut self, chunk: &[u8])
        requires
            old(self).wf(),
        ensures
            final(self).wf(),
            final(self).received() == old(self).received() + chunk@,
            final(self).delivered() == old(self).delivered(),
            final(self).max_len() == old(self).max_len(),
    {
        let mut i: usize = 0;
        let ghost start = self.buf@;
        while i < chunk.len()
            invariant
                i <= chunk.len(),
                self.buf@ == start + chunk@.subrange(0, i as int),
                start == old(self).buf@,
                self.received == old(self).received,
                self.consumed == old(self).consumed,
                self.delivered == old(self).delivered,
                self.max_len == old(self).max_len,
            decreases chunk.len() - i,
        {
            self.buf.push(chunk[i]);
            assert(self.buf@ =~= start + chunk@.subrange(0, i + 1));
            i += 1;
        }
        assert(chunk@.subrange(0, chunk.len() as int) =~= chunk@);
        self.received = Ghost(self.received@ + chunk@);
        assert(self.received@ =~= self.consumed@ + self.buf@);
    }

    /// Hands out the next payload, or says why there is none: `Incomplete`
    /// while the bytes so far end before the next frame does.
    pub fn next_message(&mut self) -> (r: Result<Vec<u8>, FrameDecodeError>)
        requires
            old(self).wf(),
        ensures
            final(self).wf(),
            final(self).received() == old(self).received(),
            final(self).max_len() == old(self).max_len(),
            ({
                let all = stream_messages(old(self).received(), old(self).max_len());
                let k = old(self).delivered().len();
                &&& k < all.len() ==> (r matches Ok(v) && v@ == all[k as int]
                    && final(self).delivered() == old(self).delivered().push(v@))
                &&& k >= all.len() ==> (r == Err::<Vec<u8>, FrameDecodeError>(
                    stream_stop(old(self).received(), old(self).max_len()),
                ) && final(self).delivered() == old(self).delivered())
            }),
    {
        let ghost m = self.max_len as nat;
        proof {
            lemma_stream_concat(self.consumed@, self.buf@, m);
            self.lemma_delivered_prefix();
            lemma_parse_frame_pos(self.buf@, m);
        }
        match decode_frame(self.buf.as_slice(), self.max_len) {
            Ok((payload, n)) => {
                proof {
                    lemma_one_frame(self.buf@, m);
                    lemma_stream_concat(self.consumed@, self.buf@.subrange(0, n as int), m);
                    assert(self.consumed@ + self.buf@.subrange(0, n as int) + self.buf@.skip(n as int)
                        =~= self.received@);
                }
                let rest = copy_range(self.buf.as_slice(), n, self.buf.len());
                let ghost used = self.buf@.subrange(0, n as int);
                self.buf = rest;
                self.consumed = Ghost(self.consumed@ + used);
                self.delivered = Ghost(self.delivered@.push(payload@));
                proof {
                    assert(seq![payload@] + Seq::<Seq<u8>>::empty() =~= seq![payload@]);
                    assert(stream_messages(self.consumed@, m) =~= self.delivered@);
                    assert(self.received@ =~= self.consumed@ + self.buf@);
                }
                Ok(payload)
            },
            Err(e) => {
                proof {
                    assert(stream_messages(self.buf@, m) =~= Seq::<Seq<u8>>::empty());
                    assert(stream_messages(self.received@, m) =~= self.delivered@);
                }
                Err(e)
            },
        }
    }

    /// The terminal status once the byte stream has ended with `trailers`.
    /// Payloads not yet handed out are dropped.
    pub fn finish(&mut self, trailers: Option<StatusMetadata>) -> (r: Status)
        requires
            old(self).wf(),
        ensures
            final(self).wf(),
            final(self).received() == old(self).received(),
            r@ == terminal_status(
                old(self).received(),
                old(self).max_len(),
                trailers,
            ),
    {
        let ghost m = self.max_len as nat;
        let mut stop = FrameDecodeError::Incomplete;
        let mut draining = true;
        proof {
            self.lemma_delivered_prefix();
        }
        while draining
            invariant
                self.wf(),
                self.received() == old(self).received(),
                self.max_len() == m,
                self.delivered().len() <= stream_messages(self.received(), m).len(),
                !draining ==> stop == stream_stop(self.received(), m)
                    && parse_frame(self.buf@, m) is Error,
            decreases stream_messages(self.received(), m).len() - self.delivered().len() + (
            if draining {
                1int
            } else {
                0int
            }),
        {
            proof {
                lemma_stream_concat(self.consumed@, self.buf@, m);
            }
            let ghost before = self.delivered();
            match self.next_message() {
                Ok(_) => {},
                Err(e) => {
                    stop = e;
                    draining = false;
                    proof {
                        lemma_stream_concat(self.consumed@, self.buf@, m);
                        assert(stream_messages(self.received(), m).len() == self.delivered().len());
                        assert(stream_messages(self.buf@, m).len() == 0);
                        lemma_parse_frame_pos(self.buf@, m);
                    }
                },
            }
            proof {
                self.lemma_delivered_prefix();
            }
        }
        proof {
            lemma_stream_concat(self.consumed@, self.buf@, m);
            assert(stream_tail(self.received(), m) == self.buf@);
        }
        if stop != FrameDecodeError::Incomplete {
            return Status::with_code(Code::Internal);
        }
        match trailers {
            Some(md) => Status::from_metadata(&md),
            None => {
                if self.buf.len() > 0 {
                    Status::with_code(Code::Internal)
                } else {
                    Status::with_code(Code::Unknown)
                }
            },
        }
    }
}

/// The bytes of all chunks, in order.
pub open spec fn concat_chunks(chunks: Seq<Vec<u8>>) -> Seq<u8>
    decreases chunks.len(),
{
    if chunks.len() == 0 {
        Seq::empty()
    } else {
        concat_chunks(chunks.drop_last()) + chunks.last()@
    }
}

/// The contents of each payload.
pub open spec fn payload_views(v: Seq<Vec<u8>>) -> Seq<Seq<u8>> {
    v.map_values(|x: Vec<u8>| x@)
}

/// Decodes a whole inbound stream that came as `chunks` and ended with
/// `trailers`. The payloads and the status depend on the concatenated bytes
/// alone, however they were split into chunks.
pub fn decode_all(chunks: &Vec<Vec<u8>>, trailers: Option<StatusMetadata>, max_len: usize) -> (r: (
    Vec<Vec<u8>>,
    Status,
))
    ensures
        payload_views(r.0@) == stream_messages(concat_chunks(chunks@), max_len as nat),
        r.1@ == terminal_status(concat_chunks(chunks@), max_len as nat, trailers),
{
    let mut dec = Decoder::new(max_len);
    let mut out: Vec<Vec<u8>> = Vec::new();
    let mut i: usize = 0;
    assert(chunks@.subrange(0, 0) =~= Seq::<Vec<u8>>::empty());
    assert(payload_views(out@) =~= dec.delivered());
    while i < chunks.len()
        invariant
            i <= chunks.len(),
            dec.wf(),
            dec.max_len() == max_len,
            dec.received() == concat_chunks(chunks@.subrange(0, i as int)),
            payload_views(out@) == dec.delivered(),
            dec.delivered() == stream_messages(dec.received(), max_len as nat),
        decreases chunks.len() - i,
    {
        dec.push(chunks[i].as_slice());
        assert(chunks@.subrange(0, i + 1).drop_last() =~= chunks@.subrange(0, i as int));
        proof {
            dec.lemma_delivered_prefix();
        }
        let mut draining = true;
        while draining
            invariant
                dec.wf(),
                dec.max_len() == max_len,
                dec.received() == concat_chunks(chunks@.subrange(0, i + 1)),
                payload_views(out@) == dec.delivered(),
                dec.delivered().len() <= stream_messages(dec.received(), max_len as nat).len(),
                dec.delivered() == stream_messages(dec.received(), max_len as nat).subrange(
                    0,
                    dec.delivered().len() as int,
                ),
                !draining ==> dec.delivered().len() == stream_messages(
                    dec.received(),
                    max_len as nat,
                ).len(),
            decreases stream_messages(dec.received(), max_len as nat).len() - dec.delivered().len()
                + (if draining {
                1int
            } else {
                0int
            }),
        {
            match dec.next_message() {
                Ok(v) => {
                    out.push(v);
                    assert(payload_views(out@) =~= dec.delivered());
                },
                Err(_) => {
                    draining = false;
                },
            }
            proof {
                dec.lemma_delivered_prefix();
            }
        }
        assert(dec.delivered() =~= stream_messages(dec.received(), max_len as nat));
        i += 1;
    }
    assert(chunks@.subrange(0, chunks.len() as int) =~= chunks@);
    let status = dec.finish(trailers);
    (out, status)
}

/// The frames of each payload in turn.
pub open spec fn frames_of(payloads: Seq<Seq<u8>>) -> Seq<u8>
    decreases payloads.len(),
{
    if payloads.len() == 0 {
        Seq::empty()
    } else {
        crate::codec::frame_bytes(payloads[0]) + frames_of(payloads.skip(1))
    }
}

proof fn lemma_stream_step(bytes: Seq<u8>, max_len: nat, p: Seq<u8>, n: nat)
    requires
        parse_frame(bytes, max_len) == FrameParse::Frame(p, n),
    ensures
        stream_messages(bytes, max_len) == seq![p] + stream_messages(bytes.skip(n as int), max_len),
        stream_tail(bytes, max_len) == stream_tail(bytes.skip(n as int), max_len),
{
    lemma_parse_frame_pos(bytes, max_len);
}

/// Every payload fits in a frame of at most `max_len` payload bytes.
pub open spec fn payloads_fit(payloads: Seq<Seq<u8>>, max_len: nat) -> bool
    decreases payloads.len(),
{
    payloads.len() == 0 || (payloads[0].len() <= max_len && payloads[0].len() < 0x1_0000_0000
        && payloads_fit(payloads.skip(1), max_len))
}

/// The frames of a sequence of payloads read back as the same payloads, with
/// nothing left over.
pub proof fn lemma_frames_read_back(payloads: Seq<Seq<u8>>, max_len: nat)
    requires
        payloads_fit(payloads, max_len),
    ensures
        stream_messages(frames_of(payloads), max_len) == payloads,
        stream_tail(frames_of(payloads), max_len).len() == 0,
    decreases payloads.len(),
{
    if payloads.len() > 0 {
        let p = payloads[0];
        let tail = payloads.skip(1);
        let rest = frames_of(tail);
        lemma_frames_read_back(tail, max_len);
        let all = frames_of(payloads);
        let n = 5 + p.len();
        assert(parse_frame(all, max_len) == FrameParse::Frame(p, n as nat) && all.skip(n as int)
            == rest) by {
            crate::codec::lemma_frame_round_trip(p, rest, max_len);
            assert(all == crate::codec::frame_bytes(p) + rest);
            assert(all.skip(n as int) =~= rest);
        }
        lemma_stream_step(all, max_len, p, n as nat);
        assert(payloads =~= seq![p] + tail);
        assert(stream_messages(all, max_len) =~= payloads);
    } else {
        assert(parse_frame(frames_of(payloads), max_len) is Error);
    }
}

} // verus!
