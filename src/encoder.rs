//! The message-stream encoder: pulls one outbound payload each time the
//! consumer asks for the next output, frames it, and ends with one trailer.
use vstd::prelude::*;
use crate::codec::{encode_frame, frame_bytes};
use crate::status::{status_of, Code, Status, StatusView};

verus! {

/// What the encoder's source hands over when pulled.
pub enum SourceItem {
    Message(Vec<u8>),
    /// The source is exhausted (with `OK`) or failed, with this status.
    End(Status),
}

/// What the consumer must do next.
#[derive(Clone, Copy, Debug, PartialEq, Eq, Structural)]
pub enum Demand {
    /// Pull one item from the source and hand it to `supply`.
    Pull,
    /// The trailer was sent: nothing more comes.
    Finished,
}

/// One item of the encoder's output.
pub enum Output {
    Frame(Vec<u8>),
    Trailers(Status),
}

pub struct Encoder {
    max_len: usize,
    awaiting: bool,
    done: bool,
    pulled: Ghost<nat>,
    messages: Ghost<Seq<Seq<u8>>>,
    frames: Ghost<Seq<Seq<u8>>>,
    trailer: Ghost<Option<StatusView>>,
}

impl Encoder {
    pub closed spec fn max_len(&self) -> nat {
        self.max_len as nat
    }

    /// The items pulled from the source so far.
    pub closed spec fn pulled(&self) -> nat {
        self.pulled@
    }

    /// The payloads framed so far, in order.
    pub closed spec fn messages(&self) -> Seq<Seq<u8>> {
        self.messages@
    }

    /// The frames handed out so far, in order.
    pub closed spec fn frames(&self) -> Seq<Seq<u8>> {
        self.frames@
    }

    /// The trailer status, once it has been handed out.
    pub closed spec fn trailer(&self) -> Option<StatusView> {
        self.trailer@
    }

    /// Whether an item has been asked of the source and not yet supplied.
    pub closed spec fn awaiting(&self) -> bool {
        self.awaiting
    }

    /// The number of outputs handed out.
    pub open spec fn outputs(&self) -> nat {
        self.frames().len() + if self.trailer() is Some {
            1nat
        } else {
            0nat
        }
    }

    /// Items pulled but not yet turned into output.
    pub open spec fn in_flight(&self) -> int {
        self.pulled() - self.outputs()
    }

    pub closed spec fn wf(&self) -> bool {
        &&& self.done == (self.trailer@ is Some)
        &&& self.done ==> !self.awaiting
        &&& self.pulled@ == self.outputs() + if self.awaiting {
            1nat
        } else {
            0nat
        }
        &&& self.frames@.len() == self.messages@.len()
        &&& forall|i: int|
            0 <= i < self.frames@.len() ==> #[trigger] self.frames@[i] == frame_bytes(
                self.messages@[i],
            )
    }

    /// At most one pulled item is ever held, and each frame carries the
    /// payload pulled for it, in order.
    pub proof fn lemma_bounded(&self)
        requires
            self.wf(),
        ensures
            0 <= self.in_flight() <= 1,
            self.in_flight() == 1 <==> self.awaiting(),
            self.frames().len() == self.messages().len(),
            forall|i: int|
                0 <= i < self.frames().len() ==> #[trigger] self.frames()[i] == frame_bytes(
                    self.messages()[i],
                ),
    {
    }

    /// An encoder that has pulled nothing, for payloads up to `max_len` bytes.
    pub fn new(max_len: usize) -> (r: Encoder)
        ensures
            r.wf(),
            r.max_len() == max_len,
            r.pulled() == 0,
            r.messages() == Seq::<Seq<u8>>::empty(),
            r.frames() == Seq::<Seq<u8>>::empty(),
            r.trailer() is None,
            !r.awaiting(),
    {
        Encoder {
            max_len,
            awaiting: false,
            done: false,
            pulled: Ghost(0),
            messages: Ghost(Seq::empty()),
            frames: Ghost(Seq::empty()),
            trailer: Ghost(None),
        }
    }

    /// The number of items pulled and not yet turned into output.
    pub fn buffered(&self) -> (r: usize)
        requires
            self.wf(),
        ensures
            r == self.in_flight(),
    {
        if self.awaiting {
            1
        } else {
            0
        }
    }

    /// Whether the trailer has been handed out.
    pub fn is_finished(&self) -> (r: bool)
        requires
            self.wf(),
        ensures
            r == (self.trailer() is Some),
    {
        self.done
    }

    /// The consumer asks for the next output: the encoder asks for one item
    /// of its source, or says that the stream is over.
    pub fn demand(&mut self) -> (r: Demand)
        requires
            old(self).wf(),
        ensures
            final(self).wf(),
            final(self).max_len() == old(self).max_len(),
            final(self).messages() == old(self).messages(),
            final(self).frames() == old(self).frames(),
            final(self).trailer() == old(self).trailer(),
            old(self).trailer() is Some ==> r == Demand::Finished && final(self).pulled()
                == old(self).pulled() && !final(self).awaiting(),
            old(self).trailer() is None ==> r == Demand::Pull && final(self).awaiting()
                && final(self).pulled() == old(self).pulled() + if old(self).awaiting() {
                0nat
            } else {
                1nat
            },
    {
        if self.done {
            Demand::Finished
        } else {
            if !self.awaiting {
                self.awaiting = true;
                self.pulled = Ghost(self.pulled@ + 1);
            }
            Demand::Pull
        }
    }

    /// Takes the item pulled from the source and hands out the next output:
    /// the payload's frame; or, when the item ends the source, a trailer
    /// with its status; or, when the payload cannot be framed, a trailer with
    /// `Internal`, after which nothing more is pulled.
    pub fn supply(&mut self, item: SourceItem) -> (r: Output)
        requires
            old(self).wf(),
            old(self).awaiting(),
        ensures
            final(self).wf(),
            !final(self).awaiting(),
            final(self).max_len() == old(self).max_len(),
            final(self).pulled() == old(self).pulled(),
            match item {
                SourceItem::Message(m) => if m@.len() <= old(self).max_len() && m@.len()
                    < 0x1_0000_0000 {
                    &&& r matches Output::Frame(f) && f@ == frame_bytes(m@)
                    &&& final(self).messages() == old(self).messages().push(m@)
                    &&& final(self).frames() == old(self).frames().push(frame_bytes(m@))
                    &&& final(self).trailer() is None
                } else {
                    &&& r matches Output::Trailers(s) && s@ == status_of(
                        Code::Internal,
                        Seq::empty(),
                    )
                    &&& final(self).messages() == old(self).messages()
                    &&& final(self).frames() == old(self).frames()
                    &&& final(self).trailer() == Some(status_of(Code::Internal, Seq::empty()))
                },
                SourceItem::End(s) => {
                    &&& r matches Output::Trailers(t) && t@ == s@
                    &&& final(self).messages() == old(self).messages()
                    &&& final(self).frames() == old(self).frames()
                    &&& final(self).trailer() == Some(s@)
                },
            },
    {
        self.awaiting = false;
        match item {
            SourceItem::Message(m) => {
                match encode_frame(m.as_slice(), self.max_len) {
                    Ok(f) => {
                        self.messages = Ghost(self.messages@.push(m@));
                        self.frames = Ghost(self.frames@.push(f@));
                        Output::Frame(f)
                    },
                    Err(_) => {
                        let s = Status::with_code(Code::Internal);
                        self.done = true;
                        self.trailer = Ghost(Some(s@));
                        Output::Trailers(s)
                    },
                }
            },
            SourceItem::End(s) => {
                self.done = true;
                self.trailer = Ghost(Some(s@));
                Output::Trailers(s)
            },
        }
    }
}

} // verus!
