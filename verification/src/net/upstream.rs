//! The `Upstream` trait: where the guest's connections end up.
//!
//! A polled interface: the stack calls these methods when it receives frames
//! from the guest and while it polls; the upstream never calls the stack. An
//! upstream that answers later returns `Pending`/`WouldBlock` and waits for the
//! next poll.
use vstd::prelude::*;
use crate::net::addr::{ConnId, Flow, Ipv4Addr, VirtualTime};

verus! {

/// Outcome of opening a connection towards the remote destination.
#[derive(Clone, Copy, Debug, PartialEq, Eq, Structural)]
pub enum TcpStatus {
    /// Still in progress: the guest keeps waiting for the SYN-ACK.
    Pending,
    /// Open: the stack answers the guest with a SYN-ACK.
    Connected,
    /// Refused: the stack answers the guest with an RST.
    Refused,
}

/// Outcome of a read from the upstream.
#[derive(Clone, Copy, Debug, PartialEq, Eq, Structural)]
pub enum TcpRead {
    /// `n` bytes copied into the buffer (`n > 0`).
    Data(usize),
    /// Nothing for now.
    WouldBlock,
    /// The remote has closed its direction: the stack sends FIN after the data.
    Eof,
    /// The remote has broken the connection: the stack sends RST.
    Reset,
}

/// Where the guest's connections end up.
///
/// An upstream is a deterministic machine: `Model` is its abstract state, and
/// the spec functions say, for each method, the state after the call and what
/// the call returns, both as functions of the state before and the arguments.
/// By default they are those of an upstream that never answers.
pub trait Upstream: Sized {
    type Model;

    spec fn model(&self) -> Self::Model;

    open spec fn opened(m: Self::Model, now: VirtualTime, id: ConnId, flow: Flow) -> Self::Model {
        m
    }

    open spec fn status_next(m: Self::Model, now: VirtualTime, id: ConnId) -> Self::Model {
        m
    }

    open spec fn status(m: Self::Model, now: VirtualTime, id: ConnId) -> TcpStatus {
        TcpStatus::Pending
    }

    open spec fn write_next(m: Self::Model, now: VirtualTime, id: ConnId, data: Seq<u8>) -> Self::Model {
        m
    }

    open spec fn write_count(m: Self::Model, now: VirtualTime, id: ConnId, data: Seq<u8>) -> usize {
        0
    }

    open spec fn read_next(m: Self::Model, now: VirtualTime, id: ConnId, room: nat) -> Self::Model {
        m
    }

    open spec fn read_result(m: Self::Model, now: VirtualTime, id: ConnId, room: nat) -> TcpRead {
        TcpRead::WouldBlock
    }

    /// The bytes that a read leaves at the start of its buffer.
    open spec fn read_data(m: Self::Model, now: VirtualTime, id: ConnId, room: nat) -> Seq<u8> {
        Seq::empty()
    }

    open spec fn shut(m: Self::Model, now: VirtualTime, id: ConnId) -> Self::Model {
        m
    }

    open spec fn closed(m: Self::Model, now: VirtualTime, id: ConnId, reset: bool) -> Self::Model {
        m
    }

    open spec fn udp_sent(
        m: Self::Model,
        now: VirtualTime,
        id: ConnId,
        flow: Flow,
        data: Seq<u8>,
    ) -> Self::Model {
        m
    }

    open spec fn udp_next(m: Self::Model, now: VirtualTime) -> Self::Model {
        m
    }

    open spec fn udp_result(m: Self::Model, now: VirtualTime) -> Option<(ConnId, Seq<u8>)> {
        None
    }

    /// A bound on the datagrams that are ready to be received.
    open spec fn udp_ready(m: Self::Model) -> nat {
        0
    }

    open spec fn udp_closed(m: Self::Model, now: VirtualTime, id: ConnId) -> Self::Model {
        m
    }

    open spec fn ping_next(m: Self::Model, now: VirtualTime, dst: Ipv4Addr) -> Self::Model {
        m
    }

    open spec fn ping_answer(m: Self::Model, now: VirtualTime, dst: Ipv4Addr) -> bool {
        false
    }

    /// Receiving a datagram leaves fewer to receive.
    proof fn udp_drains(m: Self::Model, now: VirtualTime)
        ensures
            Self::udp_result(m, now) is Some ==> Self::udp_ready(Self::udp_next(m, now))
                < Self::udp_ready(m),
    ;

    /// A read gives as many bytes as it says, and never more than there is room
    /// for.
    proof fn read_fits(m: Self::Model, now: VirtualTime, id: ConnId, room: usize)
        ensures
            Self::read_result(m, now, id, room as nat) matches TcpRead::Data(n) ==> n
                == Self::read_data(m, now, id, room as nat).len() && n <= room,
    ;

    /// The guest has sent a SYN towards `flow.remote`. The outcome comes from
    /// `tcp_status`.
    fn tcp_open(&mut self, now: VirtualTime, id: ConnId, flow: Flow)
        ensures
            final(self).model() == Self::opened(old(self).model(), now, id, flow),
    ;

    /// How the opening of `id` stands. Asked until it is no longer `Pending`.
    fn tcp_status(&mut self, now: VirtualTime, id: ConnId) -> (r: TcpStatus)
        ensures
            final(self).model() == Self::status_next(old(self).model(), now, id),
            r == Self::status(old(self).model(), now, id),
    ;

    /// Bytes from the guest to the remote, in order. Returns how many it has
    /// accepted: the others stay in the stack's receive buffer and reduce the
    /// window announced to the guest (flow control).
    fn tcp_write(&mut self, now: VirtualTime, id: ConnId, data: &[u8]) -> (n: usize)
        ensures
            final(self).model() == Self::write_next(old(self).model(), now, id, data@),
            n == Self::write_count(old(self).model(), now, id, data@),
    ;

    /// Bytes from the remote to the guest. The stack reads only when it has
    /// room in its transmit buffer.
    fn tcp_read(&mut self, now: VirtualTime, id: ConnId, buf: &mut [u8]) -> (r: TcpRead)
        ensures
            final(self).model() == Self::read_next(old(self).model(), now, id, old(buf)@.len()),
            r == Self::read_result(old(self).model(), now, id, old(buf)@.len()),
            final(buf)@.len() == old(buf)@.len(),
            r matches TcpRead::Data(n) ==> n <= old(buf)@.len() && final(buf)@.take(n as int)
                == Self::read_data(old(self).model(), now, id, old(buf)@.len()),
    ;

    /// The guest has closed its direction (FIN) after all the data written.
    fn tcp_shutdown(&mut self, now: VirtualTime, id: ConnId)
        ensures
            final(self).model() == Self::shut(old(self).model(), now, id),
    ;

    /// The connection is over: `reset` if it was broken (RST from the guest,
    /// timeout), false after an orderly close. Last call for `id`.
    fn tcp_close(&mut self, now: VirtualTime, id: ConnId, reset: bool)
        ensures
            final(self).model() == Self::closed(old(self).model(), now, id, reset),
    ;

    /// UDP datagram of the guest on the flow `id` (the first datagram of a new
    /// flow comes with an `id` never seen).
    fn udp_send(&mut self, now: VirtualTime, id: ConnId, flow: Flow, data: &[u8])
        ensures
            final(self).model() == Self::udp_sent(old(self).model(), now, id, flow, data@),
    ;

    /// Next UDP answer to deliver to the guest, on the flow given: it goes from
    /// `flow.remote` to `flow.guest`.
    fn udp_recv(&mut self, now: VirtualTime) -> (r: Option<(ConnId, Vec<u8>)>)
        ensures
            final(self).model() == Self::udp_next(old(self).model(), now),
            match r {
                Some((id, data)) => Self::udp_result(old(self).model(), now) == Some((id, data@)),
                None => Self::udp_result(old(self).model(), now) is None,
            },
    ;

    /// The UDP flow `id` has expired.
    fn udp_close(&mut self, now: VirtualTime, id: ConnId)
        ensures
            final(self).model() == Self::udp_closed(old(self).model(), now, id),
    ;

    /// ICMP echo towards an outside address: true if it is to be answered. The
    /// gateway and the virtual DNS always answer, without asking the upstream.
    fn ping(&mut self, now: VirtualTime, dst: Ipv4Addr) -> (r: bool)
        ensures
            final(self).model() == Self::ping_next(old(self).model(), now, dst),
            r == Self::ping_answer(old(self).model(), now, dst),
    ;
}

} // verus!
