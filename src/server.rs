//! The server side of one call: checks the request against the call shape,
//! turns what the handler yields into frames, and writes headers once before
//! the first frame and the status trailer once at the end.
use vstd::prelude::*;
use crate::codec::{encode_frame, frame_bytes};
use crate::status::{status_of, Code, Status, StatusView};

verus! {

/// The four call shapes.
#[derive(Clone, Copy, Debug, PartialEq, Eq, Structural)]
pub enum Shape {
    Unary,
    ClientStreaming,
    ServerStreaming,
    Bidi,
}

/// Whether the call carries exactly one request.
pub open spec fn single_request(shape: Shape) -> bool {
    shape == Shape::Unary || shape == Shape::ServerStreaming
}

/// Whether the call carries exactly one response.
pub open spec fn single_response(shape: Shape) -> bool {
    shape == Shape::Unary || shape == Shape::ClientStreaming
}

#[derive(Clone, Copy, Debug, PartialEq, Eq, Structural)]
pub enum Phase {
    AwaitingRequest,
    Invoking,
    Streaming,
    Completed,
}

/// What to do with the request side after an inbound event.
pub enum RequestStep {
    /// The single request is held until the request stream ends.
    Buffered,
    /// Invoke the handler with the single request.
    Invoke(Vec<u8>),
    /// Hand the request message to the running handler.
    Forward(Vec<u8>),
    /// Tell the running handler that the request stream has ended.
    Close,
    /// The call is refused: write this status as the trailer (and cancel the
    /// handler if it runs).
    Reject(Status),
    /// The call is over: nothing to do.
    Ignored,
}

/// What the handler yields.
pub enum HandlerItem {
    Message(Vec<u8>),
    /// The response stream ended normally.
    Done,
    /// The handler ended the call with this status.
    Status(Status),
    /// The handler failed with something other than a status.
    Fault,
}

/// One write to the transport.
pub enum Write {
    Headers,
    Frame(Vec<u8>),
    Trailers(Status),
}

pub enum WriteView {
    Headers,
    Frame(Seq<u8>),
    Trailers(StatusView),
}

impl View for Write {
    type V = WriteView;

    open spec fn view(&self) -> WriteView {
        match self {
            Write::Headers => WriteView::Headers,
            Write::Frame(f) => WriteView::Frame(f@),
            Write::Trailers(s) => WriteView::Trailers(s@),
        }
    }
}

pub open spec fn write_views(w: Seq<Write>) -> Seq<WriteView> {
    w.map_values(|x: Write| x@)
}

/// Headers come only first and the trailer only last.
pub open spec fn envelope_ok(log: Seq<WriteView>) -> bool {
    &&& forall|i: int| 0 <= i < log.len() && (#[trigger] log[i]) is Headers ==> i == 0
    &&& forall|i: int| 0 <= i < log.len() && (#[trigger] log[i]) is Trailers ==> i == log.len() - 1
}

pub open spec fn has_trailers(log: Seq<WriteView>) -> bool {
    log.len() > 0 && log.last() is Trailers
}

pub open spec fn has_headers(log: Seq<WriteView>) -> bool {
    log.len() > 0 && log[0] is Headers
}

/// What a frame write of `payload` writes, headers first if not yet sent.
pub open spec fn frame_writes(headers_sent: bool, payload: Seq<u8>) -> Seq<WriteView> {
    if headers_sent {
        seq![WriteView::Frame(frame_bytes(payload))]
    } else {
        seq![WriteView::Headers, WriteView::Frame(frame_bytes(payload))]
    }
}

pub struct ServerCall {
    shape: Shape,
    phase: Phase,
    request: Option<Vec<u8>>,
    headers_sent: bool,
    max_len: usize,
    log: Ghost<Seq<WriteView>>,
}

impl ServerCall {
    pub closed spec fn shape(&self) -> Shape {
        self.shape
    }

    pub closed spec fn phase(&self) -> Phase {
        self.phase
    }

    /// The request held while a single-request call awaits its end.
    pub closed spec fn held(&self) -> Option<Seq<u8>> {
        match self.request {
            Some(v) => Some(v@),
            None => None,
        }
    }

    pub closed spec fn max_len(&self) -> nat {
        self.max_len as nat
    }

    /// Everything written to the transport so far.
    pub closed spec fn log(&self) -> Seq<WriteView> {
        self.log@
    }

    pub closed spec fn wf(&self) -> bool {
        &&& envelope_ok(self.log@)
        &&& has_trailers(self.log@) ==> self.phase == Phase::Completed
        &&& self.headers_sent == has_headers(self.log@)
        &&& self.phase == Phase::AwaitingRequest ==> self.log@.len() == 0 && single_request(self.shape)
        &&& self.phase != Phase::AwaitingRequest ==> self.request is None
        &&& (self.phase == Phase::Invoking || self.phase == Phase::Streaming) && self.log@.len()
            > 0 ==> has_headers(self.log@)
    }

    /// Once the trailer is written the call is over, and the trailer is the
    /// only one.
    pub proof fn lemma_envelope(&self)
        requires
            self.wf(),
        ensures
            envelope_ok(self.log()),
            has_trailers(self.log()) ==> self.phase() == Phase::Completed,
    {
    }

    /// A call that has seen nothing: single-request shapes await their
    /// request, the others invoke the handler with the request stream at once.
    pub fn new(shape: Shape, max_len: usize) -> (r: ServerCall)
        ensures
            r.wf(),
            r.shape() == shape,
            r.max_len() == max_len,
            r.log() == Seq::<WriteView>::empty(),
            r.held() is None,
            r.phase() == if single_request(shape) {
                Phase::AwaitingRequest
            } else {
                Phase::Invoking
            },
    {
        let phase = match shape {
            Shape::Unary | Shape::ServerStreaming => Phase::AwaitingRequest,
            _ => Phase::Invoking,
        };
        ServerCall { shape, phase, request: None, headers_sent: false, max_len, log: Ghost(Seq::empty()) }
    }

    pub fn current_phase(&self) -> (r: Phase)
        ensures
            r == self.phase(),
    {
        self.phase
    }

    fn reject(&mut self, s: Status) -> (r: RequestStep)
        requires
            old(self).wf(),
            old(self).phase != Phase::Completed,
        ensures
            final(self).wf(),
            final(self).phase == Phase::Completed,
            final(self).request is None,
            final(self).shape == old(self).shape,
            final(self).max_len == old(self).max_len,
            final(self).log@ == old(self).log@.push(WriteView::Trailers(s@)),
            r matches RequestStep::Reject(t) && t@ == s@,
    {
        let ghost sv = s@;
        self.phase = Phase::Completed;
        self.request = None;
        self.log = Ghost(self.log@.push(WriteView::Trailers(sv)));
        RequestStep::Reject(s)
    }

    /// A request message has arrived. On a single-request call a second one
    /// refuses the call with `InvalidArgument`.
    pub fn receive_request(&mut self, msg: Vec<u8>) -> (r: RequestStep)
        requires
            old(self).wf(),
        ensures
            final(self).wf(),
            final(self).shape() == old(self).shape(),
            final(self).max_len() == old(self).max_len(),
            old(self).phase() == Phase::Completed ==> r is Ignored && *final(self) == *old(self),
            old(self).phase() == Phase::AwaitingRequest && old(self).held() is None ==> (
            r is Buffered && final(self).held() == Some(msg@) && final(self).phase()
                == Phase::AwaitingRequest && final(self).log() == old(self).log()),
            old(self).phase() == Phase::AwaitingRequest && old(self).held() is Some ==> (
            r matches RequestStep::Reject(s) && s@ == status_of(Code::InvalidArgument, Seq::empty())
                && final(self).phase() == Phase::Completed && final(self).log() == old(
                self,
            ).log().push(WriteView::Trailers(s@))),
            (old(self).phase() == Phase::Invoking || old(self).phase() == Phase::Streaming) ==> (
            r matches RequestStep::Forward(m) && m@ == msg@ && *final(self) == *old(self)),
    {
        match self.phase {
            Phase::Completed => RequestStep::Ignored,
            Phase::AwaitingRequest => {
                if self.request.is_none() {
                    self.request = Some(msg);
                    RequestStep::Buffered
                } else {
                    self.reject(Status::with_code(Code::InvalidArgument))
                }
            },
            _ => RequestStep::Forward(msg),
        }
    }

    /// The request stream has ended, cleanly or with a fault in its frames.
    /// A single-request call that got no request is refused with
    /// `InvalidArgument`; a fault in the request frames refuses the call with
    /// `Internal`.
    pub fn end_of_request(&mut self, clean: bool) -> (r: RequestStep)
        requires
            old(self).wf(),
        ensures
            final(self).wf(),
            final(self).shape() == old(self).shape(),
            final(self).max_len() == old(self).max_len(),
            old(self).phase() == Phase::Completed ==> r is Ignored && *final(self) == *old(self),
            old(self).phase() != Phase::Completed && !clean ==> (r matches RequestStep::Reject(s)
                && s@ == status_of(Code::Internal, Seq::empty()) && final(self).phase()
                == Phase::Completed && final(self).log() == old(self).log().push(
                WriteView::Trailers(s@),
            )),
            old(self).phase() == Phase::AwaitingRequest && clean ==> (match old(self).held() {
                Some(m) => r matches RequestStep::Invoke(v) && v@ == m && final(self).phase()
                    == Phase::Invoking && final(self).log() == old(self).log(),
                None => r matches RequestStep::Reject(s) && s@ == status_of(
                    Code::InvalidArgument,
                    Seq::empty(),
                ) && final(self).phase() == Phase::Completed && final(self).log() == old(
                    self,
                ).log().push(WriteView::Trailers(s@)),
            }),
            (old(self).phase() == Phase::Invoking || old(self).phase() == Phase::Streaming)
                && clean ==> (r is Close && *final(self) == *old(self)),
    {
        if self.phase == Phase::Completed {
            return RequestStep::Ignored;
        }
        if !clean {
            return self.reject(Status::with_code(Code::Internal));
        }
        if self.phase == Phase::AwaitingRequest {
            match self.request.take() {
                Some(m) => {
                    self.phase = Phase::Invoking;
                    RequestStep::Invoke(m)
                },
                None => self.reject(Status::with_code(Code::InvalidArgument)),
            }
        } else {
            RequestStep::Close
        }
    }

    fn finish_with(&mut self, s: Status) -> (r: Vec<Write>)
        requires
            old(self).wf(),
            old(self).phase == Phase::Invoking || old(self).phase == Phase::Streaming,
        ensures
            final(self).wf(),
            final(self).phase == Phase::Completed,
            final(self).shape == old(self).shape,
            final(self).max_len == old(self).max_len,
            final(self).request is None,
            write_views(r@) == seq![WriteView::Trailers(s@)],
            final(self).log@ == old(self).log@ + write_views(r@),
    {
        let ghost sv = s@;
        let mut out: Vec<Write> = Vec::new();
        out.push(Write::Trailers(s));
        self.phase = Phase::Completed;
        assert(write_views(out@) =~= seq![WriteView::Trailers(sv)]);
        self.log = Ghost(self.log@ + write_views(out@));
        assert(self.log@ =~= old(self).log@.push(WriteView::Trailers(sv)));
        out
    }

    /// Turns what the handler yields into writes. A response frame is
    /// preceded by the headers if they were not yet sent, and on a
    /// single-response call followed by the `OK` trailer. A status from the
    /// handler is the trailer as it is; a fault, or a response that cannot be
    /// framed, gives `Internal`; the end of the responses gives `OK`, but on a
    /// single-response call with no response `Internal`. Before the handler
    /// runs and after the call is over nothing is written.
    pub fn respond(&mut self, item: HandlerItem) -> (r: Vec<Write>)
        requires
            old(self).wf(),
        ensures
            final(self).wf(),
            final(self).shape() == old(self).shape(),
            final(self).max_len() == old(self).max_len(),
            final(self).log() == old(self).log() + write_views(r@),
            (old(self).phase() == Phase::Completed || old(self).phase() == Phase::AwaitingRequest)
                ==> (r@.len() == 0 && *final(self) == *old(self)),
            (old(self).phase() == Phase::Invoking || old(self).phase() == Phase::Streaming) ==> (
            match item {
                HandlerItem::Message(m) => if m@.len() <= old(self).max_len() && m@.len()
                    < 0x1_0000_0000 {
                    if single_response(old(self).shape()) {
                        write_views(r@) == frame_writes(has_headers(old(self).log()), m@).push(
                            WriteView::Trailers(status_of(Code::Success, Seq::empty())),
                        ) && final(self).phase() == Phase::Completed
                    } else {
                        write_views(r@) == frame_writes(has_headers(old(self).log()), m@)
                            && final(self).phase() == Phase::Streaming
                    }
                } else {
                    write_views(r@) == seq![
                        WriteView::Trailers(status_of(Code::Internal, Seq::empty())),
                    ] && final(self).phase() == Phase::Completed
                },
                HandlerItem::Done => final(self).phase() == Phase::Completed && if single_response(
                    old(self).shape(),
                ) {
                    write_views(r@) == seq![
                        WriteView::Trailers(status_of(Code::Internal, Seq::empty())),
                    ]
                } else {
                    write_views(r@) == seq![
                        WriteView::Trailers(status_of(Code::Success, Seq::empty())),
                    ]
                },
                HandlerItem::Status(s) => write_views(r@) == seq![WriteView::Trailers(s@)]
                    && final(self).phase() == Phase::Completed,
                HandlerItem::Fault => write_views(r@) == seq![
                    WriteView::Trailers(status_of(Code::Internal, Seq::empty())),
                ] && final(self).phase() == Phase::Completed,
            }),
    {
        if self.phase == Phase::Completed || self.phase == Phase::AwaitingRequest {
            let out: Vec<Write> = Vec::new();
            assert(old(self).log@ + write_views(out@) =~= old(self).log@);
            return out;
        }
        match item {
            HandlerItem::Message(m) => {
                match encode_frame(m.as_slice(), self.max_len) {
                    Ok(f) => {
                        let ghost fv = f@;
                        let mut out: Vec<Write> = Vec::new();
                        if !self.headers_sent {
                            out.push(Write::Headers);
                        }
                        out.push(Write::Frame(f));
                        let single = match self.shape {
                            Shape::Unary | Shape::ClientStreaming => true,
                            _ => false,
                        };
                        if single {
                            out.push(Write::Trailers(Status::ok()));
                            self.phase = Phase::Completed;
                        } else {
                            self.phase = Phase::Streaming;
                        }
                        let ghost old_log = self.log@;
                        self.log = Ghost(self.log@ + write_views(out@));
                        self.headers_sent = true;
                        proof {
                            let w = write_views(out@);
                            if single {
                                assert(w =~= frame_writes(has_headers(old_log), m@).push(
                                    WriteView::Trailers(status_of(Code::Success, Seq::empty())),
                                ));
                            } else {
                                assert(w =~= frame_writes(has_headers(old_log), m@));
                            }
                            let l = self.log@;
                            assert(forall|i: int|
                                0 <= i < w.len() && (#[trigger] w[i]) is Headers ==> i == 0
                                    && !has_headers(old_log));
                            assert(old_log.len() > 0 && !has_headers(old_log) ==> !(
                            old_log[0] is Headers));
                            assert(old_log.len() > 0 ==> !(old_log.last() is Trailers));
                            assert forall|i: int|
                                0 <= i < l.len() && (#[trigger] l[i]) is Headers implies i == 0 by {
                                if i >= old_log.len() {
                                    assert(l[i] == w[i - old_log.len()]);
                                }
                            }
                            assert forall|i: int|
                                0 <= i < l.len() && (#[trigger] l[i]) is Trailers implies i == l.len()
                                    - 1 by {
                                if i >= old_log.len() {
                                    assert(l[i] == w[i - old_log.len()]);
                                } else {
                                    assert(l[i] == old_log[i]);
                                }
                            }
                            if old_log.len() > 0 {
                                assert(l[0] == old_log[0]);
                            } else {
                                assert(l[0] == w[0]);
                            }
                            assert(has_headers(l));
                        }
                        out
                    },
                    Err(_) => self.finish_with(Status::with_code(Code::Internal)),
                }
            },
            HandlerItem::Done => {
                let single = match self.shape {
                    Shape::Unary | Shape::ClientStreaming => true,
                    _ => false,
                };
                if single {
                    self.finish_with(Status::with_code(Code::Internal))
                } else {
                    self.finish_with(Status::ok())
                }
            },
            HandlerItem::Status(s) => self.finish_with(s),
            HandlerItem::Fault => self.finish_with(Status::with_code(Code::Internal)),
        }
    }

    /// The call is discarded: it is over, nothing is written, and the result
    /// says whether the running handler must be cancelled.
    pub fn cancel(&mut self) -> (r: bool)
        requires
            old(self).wf(),
        ensures
            final(self).wf(),
            final(self).phase() == Phase::Completed,
            final(self).log() == old(self).log(),
            final(self).shape() == old(self).shape(),
            r == (old(self).phase() == Phase::Invoking || old(self).phase() == Phase::Streaming),
    {
        let r = self.phase == Phase::Invoking || self.phase == Phase::Streaming;
        self.phase = Phase::Completed;
        self.request = None;
        r
    }
}

} // verus!
