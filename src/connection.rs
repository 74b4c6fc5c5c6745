use vstd::prelude::*;
use crate::frame::{append_bytes, drain, drain_frames, has_frame, declared_len, try_extract_frame};

verus! {

/// The readiness that a connection is registered for with the poller.
#[derive(PartialEq, Eq, Structural, Clone, Copy, Debug)]
pub enum Interest {
    /// Waiting for data: nothing is pending to be sent.
    Readable,
    /// Outbound bytes are pending, so writable readiness is wanted too.
    ReadWritable,
}

/// What one non-blocking socket call reported.
#[derive(PartialEq, Eq, Structural, Clone, Copy, Debug)]
pub enum IoStatus {
    /// The call moved this many bytes.
    Done(usize),
    /// The socket would have blocked.
    WouldBlock,
    /// Any other I/O error.
    Failed,
}

/// Result of one read step.
#[derive(PartialEq, Eq, Structural, Clone, Copy, Debug)]
pub enum ReadOutcome {
    /// Bytes were appended to the inbound buffer.
    Progressed,
    /// Nothing more to read for now.
    WouldBlock,
    /// The peer closed the stream (a read of zero bytes).
    Closed,
}

/// Result of one write step.
#[derive(PartialEq, Eq, Structural, Clone, Copy, Debug)]
pub enum WriteOutcome {
    /// Bytes were sent and taken off the outbound buffer.
    Progressed,
    /// The socket would have blocked; nothing was sent.
    WouldBlock,
    /// Nothing was pending.
    Idle,
}

/// A read or write error other than "would block": the connection is torn down.
#[derive(PartialEq, Eq, Structural, Clone, Copy, Debug)]
pub enum IoFault {
    Fault,
}

/// What the event loop does once a connection's reads have stopped.
pub enum ReadAction {
    /// The peer closed or the read failed: deregister and free the slot.
    Close,
    /// Hand these frames, routing key and frame each, to the router in order.
    Relay(Vec<(Vec<u8>, Vec<u8>)>),
}

/// What the event loop does once a connection's write has been taken in.
#[derive(PartialEq, Eq, Structural, Clone, Copy, Debug)]
pub enum WriteAction {
    /// The write failed: deregister and free the slot.
    Close,
    /// Keep the connection; reregister it with the interest given, if any.
    Keep(Option<Interest>),
}

/// The interest a connection should be registered with, given what it has to send.
pub open spec fn desired_interest(outbound: Seq<u8>) -> Interest {
    if outbound.len() == 0 {
        Interest::Readable
    } else {
        Interest::ReadWritable
    }
}

/// One live connection: its socket, the bytes received and not yet framed, the
/// bytes waiting to be sent, and the interest it is registered with.
pub struct Connection<S> {
    socket: S,
    inbound: Vec<u8>,
    outbound: Vec<u8>,
    interest: Interest,
}

impl<S> Connection<S> {
    pub closed spec fn spec_socket(&self) -> S {
        self.socket
    }

    pub closed spec fn spec_inbound(&self) -> Seq<u8> {
        self.inbound@
    }

    pub closed spec fn spec_outbound(&self) -> Seq<u8> {
        self.outbound@
    }

    pub closed spec fn spec_interest(&self) -> Interest {
        self.interest
    }

    /// A freshly accepted connection: empty buffers, registered for reading.
    pub fn new(socket: S) -> (r: Self)
        ensures
            r.spec_socket() == socket,
            r.spec_inbound() == Seq::<u8>::empty(),
            r.spec_outbound() == Seq::<u8>::empty(),
            r.spec_interest() == Interest::Readable,
    {
        Connection { socket, inbound: Vec::new(), outbound: Vec::new(), interest: Interest::Readable }
    }

    pub fn socket(&self) -> (r: &S)
        ensures
            *r == self.spec_socket(),
    {
        &self.socket
    }

    /// The socket, for the caller's own read and write calls; the buffers and
    /// the interest stay as they are.
    pub fn socket_mut(&mut self) -> (r: &mut S)
        ensures
            *r == old(self).spec_socket(),
            final(self).spec_socket() == *final(r),
            final(self).spec_inbound() == old(self).spec_inbound(),
            final(self).spec_outbound() == old(self).spec_outbound(),
            final(self).spec_interest() == old(self).spec_interest(),
    {
        &mut self.socket
    }

    pub fn inbound(&self) -> (r: &[u8])
        ensures
            r@ == self.spec_inbound(),
    {
        self.inbound.as_slice()
    }

    pub fn outbound(&self) -> (r: &[u8])
        ensures
            r@ == self.spec_outbound(),
    {
        self.outbound.as_slice()
    }

    pub fn interest(&self) -> (r: Interest)
        ensures
            r == self.spec_interest(),
    {
        self.interest
    }

    /// Takes in what one read call reported, `chunk` holding the bytes it read.
    /// A read of zero bytes means the peer closed.
    pub fn record_read(&mut self, status: IoStatus, chunk: &[u8]) -> (r: Result<ReadOutcome, IoFault>)
        requires
            status matches IoStatus::Done(n) ==> n <= chunk@.len(),
        ensures
            final(self).spec_socket() == old(self).spec_socket(),
            final(self).spec_outbound() == old(self).spec_outbound(),
            final(self).spec_interest() == old(self).spec_interest(),
            match status {
                IoStatus::Done(n) => if n == 0 {
                    &&& r == Ok::<ReadOutcome, IoFault>(ReadOutcome::Closed)
                    &&& final(self).spec_inbound() == old(self).spec_inbound()
                } else {
                    &&& r == Ok::<ReadOutcome, IoFault>(ReadOutcome::Progressed)
                    &&& final(self).spec_inbound() == old(self).spec_inbound() + chunk@.subrange(0, n as int)
                },
                IoStatus::WouldBlock => {
                    &&& r == Ok::<ReadOutcome, IoFault>(ReadOutcome::WouldBlock)
                    &&& final(self).spec_inbound() == old(self).spec_inbound()
                },
                IoStatus::Failed => {
                    &&& r == Err::<ReadOutcome, IoFault>(IoFault::Fault)
                    &&& final(self).spec_inbound() == old(self).spec_inbound()
                },
            },
    {
        match status {
            IoStatus::Done(n) => {
                if n == 0 {
                    Ok(ReadOutcome::Closed)
                } else {
                    append_bytes(&mut self.inbound, &chunk[0..n]);
                    Ok(ReadOutcome::Progressed)
                }
            },
            IoStatus::WouldBlock => Ok(ReadOutcome::WouldBlock),
            IoStatus::Failed => Err(IoFault::Fault),
        }
    }

    /// Takes in what one write call of the whole outbound buffer reported: the
    /// bytes sent leave the front of the buffer. With nothing pending the
    /// status is not looked at.
    pub fn record_write(&mut self, status: IoStatus) -> (r: Result<WriteOutcome, IoFault>)
        requires
            status matches IoStatus::Done(n) ==> n <= old(self).spec_outbound().len(),
        ensures
            final(self).spec_socket() == old(self).spec_socket(),
            final(self).spec_inbound() == old(self).spec_inbound(),
            final(self).spec_interest() == old(self).spec_interest(),
            old(self).spec_outbound().len() == 0 ==> {
                &&& r == Ok::<WriteOutcome, IoFault>(WriteOutcome::Idle)
                &&& final(self).spec_outbound() == old(self).spec_outbound()
            },
            old(self).spec_outbound().len() > 0 ==> match status {
                IoStatus::Done(n) => {
                    &&& r == Ok::<WriteOutcome, IoFault>(WriteOutcome::Progressed)
                    &&& final(self).spec_outbound() == old(self).spec_outbound().subrange(
                        n as int,
                        old(self).spec_outbound().len() as int,
                    )
                },
                IoStatus::WouldBlock => {
                    &&& r == Ok::<WriteOutcome, IoFault>(WriteOutcome::WouldBlock)
                    &&& final(self).spec_outbound() == old(self).spec_outbound()
                },
                IoStatus::Failed => {
                    &&& r == Err::<WriteOutcome, IoFault>(IoFault::Fault)
                    &&& final(self).spec_outbound() == old(self).spec_outbound()
                },
            },
    {
        if self.outbound.len() == 0 {
            return Ok(WriteOutcome::Idle);
        }
        match status {
            IoStatus::Done(n) => {
                let rest = self.outbound.split_off(n);
                self.outbound = rest;
                Ok(WriteOutcome::Progressed)
            },
            IoStatus::WouldBlock => Ok(WriteOutcome::WouldBlock),
            IoStatus::Failed => Err(IoFault::Fault),
        }
    }

    /// Takes the next whole frame off the inbound buffer: its routing key and
    /// the frame. A partial frame stays where it is.
    pub fn pop_message(&mut self) -> (r: Option<(Vec<u8>, Vec<u8>)>)
        ensures
            final(self).spec_socket() == old(self).spec_socket(),
            final(self).spec_outbound() == old(self).spec_outbound(),
            final(self).spec_interest() == old(self).spec_interest(),
            r is Some <==> has_frame(old(self).spec_inbound()),
            match r {
                Some((key, frame)) => {
                    let s = old(self).spec_inbound();
                    &&& key@ == s.subrange(0, 4)
                    &&& frame@ == s.subrange(0, declared_len(s) as int)
                    &&& final(self).spec_inbound() == s.subrange(declared_len(s) as int, s.len() as int)
                },
                None => final(self).spec_inbound() == old(self).spec_inbound(),
            },
    {
        try_extract_frame(&mut self.inbound)
    }

    /// Takes every whole frame off the inbound buffer, in order of arrival.
    pub fn pop_messages(&mut self) -> (r: Vec<(Vec<u8>, Vec<u8>)>)
        ensures
            final(self).spec_socket() == old(self).spec_socket(),
            final(self).spec_outbound() == old(self).spec_outbound(),
            final(self).spec_interest() == old(self).spec_interest(),
            r@.len() == drain(old(self).spec_inbound()).0.len(),
            forall|i: int|
                0 <= i < r@.len() ==> {
                    &&& (#[trigger] r@[i]).1@ == drain(old(self).spec_inbound()).0[i]
                    &&& r@[i].0@ == r@[i].1@.subrange(0, 4)
                },
            final(self).spec_inbound() == drain(old(self).spec_inbound()).1,
    {
        drain_frames(&mut self.inbound)
    }

    /// Queues `message` for sending, as it stands.
    pub fn push_message(&mut self, message: &Vec<u8>)
        ensures
            final(self).spec_socket() == old(self).spec_socket(),
            final(self).spec_inbound() == old(self).spec_inbound(),
            final(self).spec_interest() == old(self).spec_interest(),
            final(self).spec_outbound() == old(self).spec_outbound() + message@,
    {
        append_bytes(&mut self.outbound, message.as_slice());
    }

    /// Brings the registered interest in line with the outbound buffer: reading
    /// only when nothing is pending, reading and writing otherwise. Gives the
    /// new interest when it changed, which the poller must then be told.
    pub fn sync_interest(&mut self) -> (r: Option<Interest>)
        ensures
            final(self).spec_socket() == old(self).spec_socket(),
            final(self).spec_inbound() == old(self).spec_inbound(),
            final(self).spec_outbound() == old(self).spec_outbound(),
            final(self).spec_interest() == desired_interest(old(self).spec_outbound()),
            r == if old(self).spec_interest() == desired_interest(old(self).spec_outbound()) {
                None::<Interest>
            } else {
                Some(desired_interest(old(self).spec_outbound()))
            },
    {
        let want = if self.outbound.len() == 0 {
            Interest::Readable
        } else {
            Interest::ReadWritable
        };
        if want == self.interest {
            None
        } else {
            self.interest = want;
            Some(want)
        }
    }

    /// Decides what follows a run of reads that ended in `outcome`: a close
    /// or a fault tears the connection down and leaves it as it is; otherwise
    /// every whole frame received so far is taken off for relaying.
    pub fn after_read(&mut self, outcome: Result<ReadOutcome, IoFault>) -> (r: ReadAction)
        ensures
            final(self).spec_socket() == old(self).spec_socket(),
            final(self).spec_outbound() == old(self).spec_outbound(),
            final(self).spec_interest() == old(self).spec_interest(),
            match outcome {
                Err(_) | Ok(ReadOutcome::Closed) => {
                    &&& r is Close
                    &&& final(self).spec_inbound() == old(self).spec_inbound()
                },
                _ => match r {
                    ReadAction::Relay(frames) => {
                        &&& frames@.len() == drain(old(self).spec_inbound()).0.len()
                        &&& forall|i: int|
                            0 <= i < frames@.len() ==> {
                                &&& (#[trigger] frames@[i]).1@ == drain(old(self).spec_inbound()).0[i]
                                &&& frames@[i].0@ == frames@[i].1@.subrange(0, 4)
                            }
                        &&& final(self).spec_inbound() == drain(old(self).spec_inbound()).1
                    },
                    ReadAction::Close => false,
                },
            },
    {
        match outcome {
            Err(_) => ReadAction::Close,
            Ok(ReadOutcome::Closed) => ReadAction::Close,
            Ok(_) => ReadAction::Relay(self.pop_messages()),
        }
    }

    /// Decides what follows a write that ended in `outcome`: a fault tears the
    /// connection down and leaves it as it is; otherwise the interest is
    /// brought in line with what is still pending.
    pub fn after_write(&mut self, outcome: Result<WriteOutcome, IoFault>) -> (r: WriteAction)
        ensures
            final(self).spec_socket() == old(self).spec_socket(),
            final(self).spec_inbound() == old(self).spec_inbound(),
            final(self).spec_outbound() == old(self).spec_outbound(),
            outcome is Err ==> {
                &&& r == WriteAction::Close
                &&& final(self).spec_interest() == old(self).spec_interest()
            },
            outcome is Ok ==> {
                &&& final(self).spec_interest() == desired_interest(old(self).spec_outbound())
                &&& r == WriteAction::Keep(
                    if old(self).spec_interest() == desired_interest(old(self).spec_outbound()) {
                        None::<Interest>
                    } else {
                        Some(desired_interest(old(self).spec_outbound()))
                    },
                )
            },
    {
        match outcome {
            Err(_) => WriteAction::Close,
            Ok(_) => WriteAction::Keep(self.sync_interest()),
        }
    }
}

/// Total of a run of write sizes.
pub open spec fn total(ns: Seq<nat>) -> nat
    decreases ns.len(),
{
    if ns.len() == 0 {
        0
    } else {
        ns[0] + total(ns.drop_first())
    }
}

/// The outbound buffer `out` after writes that sent `ns` bytes, one after
/// another, each from the front.
pub open spec fn after_writes(out: Seq<u8>, ns: Seq<nat>) -> Seq<u8>
    decreases ns.len(),
{
    if ns.len() == 0 {
        out
    } else {
        after_writes(out.subrange(ns[0] as int, out.len() as int), ns.drop_first())
    }
}

/// Write draining: partial writes that add up to the size of the outbound
/// buffer leave it empty, and the connection then wants reading only.
pub proof fn lemma_write_draining(out: Seq<u8>, ns: Seq<nat>)
    requires
        total(ns) == out.len(),
    ensures
        after_writes(out, ns) == Seq::<u8>::empty(),
        desired_interest(after_writes(out, ns)) == Interest::Readable,
    decreases ns.len(),
{
    if ns.len() == 0 {
        assert(out =~= Seq::<u8>::empty());
    } else {
        lemma_write_draining(out.subrange(ns[0] as int, out.len() as int), ns.drop_first());
    }
}

} // verus!
