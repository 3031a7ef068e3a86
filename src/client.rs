//! The client side of one call: hands responses to the caller and ends with
//! exactly one terminal status, into which transport faults are mapped.
use vstd::prelude::*;
use crate::server::{single_response, Shape};
use crate::status::{status_of, Code, Status, StatusView};

verus! {

/// A fault of the transport under a call.
#[derive(Clone, Copy, Debug, PartialEq, Eq, Structural)]
pub enum TransportFault {
    Reset,
    Timeout,
    ConnectFailed,
}

/// The code that a transport fault becomes.
pub open spec fn fault_code(f: TransportFault) -> Code {
    match f {
        TransportFault::Timeout => Code::DeadlineExceeded,
        _ => Code::Unavailable,
    }
}

/// What the caller gets from an inbound event.
pub enum ClientStep {
    /// A response of a streaming-response call.
    Deliver(Vec<u8>),
    /// The response of a single-response call, held until the status says
    /// whether the call succeeded.
    Held,
    /// The single response of a call that ended with `OK`.
    Reply(Vec<u8>),
    /// The call ended with this status (and, for a single-response call, no
    /// value).
    Terminal(Status),
    /// The call was already over.
    Ignored,
}

pub struct ClientCall {
    shape: Shape,
    held: Option<Vec<u8>>,
    finished: bool,
    delivered: Ghost<Seq<Seq<u8>>>,
    outcome: Ghost<Option<StatusView>>,
}

impl ClientCall {
    pub closed spec fn shape(&self) -> Shape {
        self.shape
    }

    /// The responses handed to the caller, in order.
    pub closed spec fn delivered(&self) -> Seq<Seq<u8>> {
        self.delivered@
    }

    /// The terminal status, once the call is over.
    pub closed spec fn outcome(&self) -> Option<StatusView> {
        self.outcome@
    }

    /// The response of a single-response call, held until the status comes.
    pub closed spec fn held(&self) -> Option<Seq<u8>> {
        match self.held {
            Some(v) => Some(v@),
            None => None,
        }
    }

    pub closed spec fn wf(&self) -> bool {
        &&& self.finished == (self.outcome@ is Some)
        &&& self.finished ==> self.held is None
        &&& single_response(self.shape) ==> self.delivered@.len() <= 1
        &&& single_response(self.shape) && self.delivered@.len() == 1 ==> self.outcome@ == Some(
            status_of(Code::Success, Seq::empty()),
        )
        &&& !single_response(self.shape) ==> self.held is None
    }

    pub fn new(shape: Shape) -> (r: ClientCall)
        ensures
            r.wf(),
            r.shape() == shape,
            r.delivered() == Seq::<Seq<u8>>::empty(),
            r.outcome() is None,
            r.held() is None,
    {
        ClientCall { shape, held: None, finished: false, delivered: Ghost(Seq::empty()), outcome: Ghost(None) }
    }

    pub fn is_finished(&self) -> (r: bool)
        requires
            self.wf(),
        ensures
            r == (self.outcome() is Some),
    {
        self.finished
    }

    /// A response message has arrived. A second one on a single-response call
    /// ends the call with `Internal`.
    pub fn on_message(&mut self, msg: Vec<u8>) -> (r: ClientStep)
        requires
            old(self).wf(),
        ensures
            final(self).wf(),
            final(self).shape() == old(self).shape(),
            old(self).outcome() is Some ==> r is Ignored && *final(self) == *old(self),
            old(self).outcome() is None && !single_response(old(self).shape()) ==> (r matches ClientStep::Deliver(
                m,
            ) && m@ == msg@ && final(self).delivered() == old(self).delivered().push(msg@)
                && final(self).outcome() is None),
            old(self).outcome() is None && single_response(old(self).shape()) && old(self).held() is None ==> (
            r is Held && final(self).held() == Some(msg@) && final(self).delivered() == old(
                self,
            ).delivered() && final(self).outcome() is None),
            old(self).outcome() is None && single_response(old(self).shape()) && old(self).held() is Some ==> (
            r matches ClientStep::Terminal(s) && s@ == status_of(Code::Internal, Seq::empty())
                && final(self).outcome() == Some(s@) && final(self).delivered() == old(
                self,
            ).delivered()),
    {
        if self.finished {
            return ClientStep::Ignored;
        }
        let single = match self.shape {
            Shape::Unary | Shape::ClientStreaming => true,
            _ => false,
        };
        if !single {
            self.delivered = Ghost(self.delivered@.push(msg@));
            ClientStep::Deliver(msg)
        } else if self.held.is_none() {
            self.held = Some(msg);
            ClientStep::Held
        } else {
            let s = Status::with_code(Code::Internal);
            self.held = None;
            self.finished = true;
            self.outcome = Ghost(Some(s@));
            ClientStep::Terminal(s)
        }
    }

    /// The response stream has ended with `status`. A single-response call
    /// that ends with `OK` yields its response, or `Internal` when it got
    /// none; any other status ends the call as it is, with no value.
    pub fn on_status(&mut self, status: Status) -> (r: ClientStep)
        requires
            old(self).wf(),
        ensures
            final(self).wf(),
            final(self).shape() == old(self).shape(),
            old(self).outcome() is Some ==> r is Ignored && *final(self) == *old(self),
            old(self).outcome() is None && (!single_response(old(self).shape())
                || status.code != Code::Success) ==> (r matches ClientStep::Terminal(s) && s@
                == status@ && final(self).outcome() == Some(status@) && final(self).delivered()
                == old(self).delivered()),
            old(self).outcome() is None && single_response(old(self).shape()) && status.code
                == Code::Success ==> (match old(self).held() {
                Some(m) => r matches ClientStep::Reply(v) && v@ == m && final(self).outcome()
                    == Some(status_of(Code::Success, Seq::empty())) && final(self).delivered()
                    == seq![m],
                None => r matches ClientStep::Terminal(s) && s@ == status_of(
                    Code::Internal,
                    Seq::empty(),
                ) && final(self).outcome() == Some(s@) && final(self).delivered() == old(
                    self,
                ).delivered(),
            }),
    {
        if self.finished {
            return ClientStep::Ignored;
        }
        let single = match self.shape {
            Shape::Unary | Shape::ClientStreaming => true,
            _ => false,
        };
        self.finished = true;
        if !single || !status.is_ok() {
            self.held = None;
            self.outcome = Ghost(Some(status@));
            return ClientStep::Terminal(status);
        }
        match self.held.take() {
            Some(m) => {
                self.outcome = Ghost(Some(status_of(Code::Success, Seq::empty())));
                let ghost one = seq![m@];
                self.delivered = Ghost(one);
                ClientStep::Reply(m)
            },
            None => {
                let s = Status::with_code(Code::Internal);
                self.outcome = Ghost(Some(s@));
                ClientStep::Terminal(s)
            },
        }
    }

    /// The transport failed: the call ends with `DeadlineExceeded` for a
    /// timeout and `Unavailable` otherwise.
    pub fn on_fault(&mut self, fault: TransportFault) -> (r: ClientStep)
        requires
            old(self).wf(),
        ensures
            final(self).wf(),
            final(self).shape() == old(self).shape(),
            old(self).outcome() is Some ==> r is Ignored && *final(self) == *old(self),
            old(self).outcome() is None ==> (r matches ClientStep::Terminal(s) && s@ == status_of(
                fault_code(fault),
                Seq::empty(),
            ) && final(self).outcome() == Some(s@) && final(self).delivered() == old(
                self,
            ).delivered()),
    {
        if self.finished {
            return ClientStep::Ignored;
        }
        let code = match fault {
            TransportFault::Timeout => Code::DeadlineExceeded,
            _ => Code::Unavailable,
        };
        let s = Status::with_code(code);
        self.held = None;
        self.finished = true;
        self.outcome = Ghost(Some(s@));
        ClientStep::Terminal(s)
    }
}

} // verus!
