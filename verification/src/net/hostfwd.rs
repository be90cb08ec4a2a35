//! Port forwarding: TCP connections opened by the host towards a service of
//! the guest.
//!
//! The stack acts as TCP client towards the guest: the SYN leaves from the
//! gateway, from an ephemeral port chosen deterministically. From the SYN-ACK on
//! the connection is the same state machine as the guest's connections; in place
//! of the upstream there is [`HostSide`], which keeps the bytes queued in the
//! two directions. The host queues bytes and reads them with the `host_*`
//! methods of the stack. The host's actions take effect at the next poll.
use vstd::prelude::*;
use std::collections::VecDeque;
use crate::bytes::{drain_into, min_len, queue_bytes};
use crate::net::addr::{ConnId, Flow, Ipv4Addr, VirtualTime};
use crate::net::events::CloseReason;
use crate::net::upstream::{TcpRead, TcpStatus, Upstream};
use crate::table::{keyed, rank, value, Table};

verus! {

/// Bytes queued at most in each direction of a connection: beyond that the
/// stack accepts fewer bytes (backpressure towards the host) and the guest sees
/// its window close until the host reads.
pub const HOST_BUFFER: usize = 262_144;

/// First ephemeral port of the gateway for the host's connections.
pub const FIRST_EPHEMERAL_PORT: u16 = 49_152;

/// State of a connection opened by the host towards the guest.
#[derive(Clone, Copy, Debug, PartialEq, Eq, Structural)]
pub enum HostConnState {
    /// SYN sent (or to be sent at the next poll), no answer.
    Connecting,
    /// Handshake completed: the bytes flow (also while closing).
    Open,
    /// Over: `Normal` after FIN in both directions, `Refused` if the guest
    /// answered the SYN with RST (nobody listens), `GuestReset` for an RST of
    /// the guest, `RemoteReset` after an abort, `Timeout` if the guest does not
    /// answer.
    Closed(CloseReason),
}

/// What the host sees of one of its connections.
#[derive(Clone, Copy, Debug, PartialEq, Eq, Structural)]
pub struct HostConnInfo {
    pub state: HostConnState,
    pub flow: Flow,
    /// Bytes of the guest ready to be received.
    pub readable: usize,
    /// Room for bytes to send.
    pub writable: usize,
    /// The guest has closed its direction (FIN) and the host has read all.
    pub guest_eof: bool,
    /// Bytes that the host has queued and the stack has not taken yet (it takes
    /// them as the guest's window allows).
    pub unsent: usize,
}

/// Host side of a connection.
#[derive(Debug)]
pub struct HostEnd {
    pub flow: Flow,
    /// Opened by the host, SYN not sent yet.
    pub pending_open: bool,
    pub to_guest: VecDeque<u8>,
    pub from_guest: VecDeque<u8>,
    /// The host has closed its direction: FIN after `to_guest`.
    pub shutdown: bool,
    /// The host has asked to break the connection (RST at the next poll).
    pub abort: bool,
    /// FIN of the guest arrived (after all its data).
    pub guest_fin: bool,
    pub closed: Option<CloseReason>,
    /// The host has released it before the end: it disappears once closed.
    pub released: bool,
}

/// What a [`HostEnd`] holds.
#[verifier::ext_equal]
pub struct End {
    pub flow: Flow,
    pub pending_open: bool,
    pub to_guest: Seq<u8>,
    pub from_guest: Seq<u8>,
    pub shutdown: bool,
    pub abort: bool,
    pub guest_fin: bool,
    pub closed: Option<CloseReason>,
    pub released: bool,
}

impl View for HostEnd {
    type V = End;

    open spec fn view(&self) -> End {
        End {
            flow: self.flow,
            pending_open: self.pending_open,
            to_guest: self.to_guest@,
            from_guest: self.from_guest@,
            shutdown: self.shutdown,
            abort: self.abort,
            guest_fin: self.guest_fin,
            closed: self.closed,
            released: self.released,
        }
    }
}

/// The "upstream" of the host's connections: the queues of bytes.
#[derive(Debug)]
pub struct HostSide {
    pub conns: Table<HostEnd>,
    /// Next ephemeral port to try.
    pub next_port: u16,
}

/// What a [`HostSide`] holds.
#[verifier::ext_equal]
pub struct Ends {
    pub conns: Seq<(ConnId, End)>,
    pub next_port: u16,
}

impl End {
    /// A connection that the host has just asked for.
    pub open spec fn asked(flow: Flow) -> End {
        End {
            flow,
            pending_open: true,
            to_guest: Seq::empty(),
            from_guest: Seq::empty(),
            shutdown: false,
            abort: false,
            guest_fin: false,
            closed: None,
            released: false,
        }
    }

    /// Room for bytes of the host.
    pub open spec fn writable(self) -> nat {
        if self.shutdown || self.abort || self.closed is Some || self.to_guest.len()
            >= HOST_BUFFER {
            0
        } else {
            (HOST_BUFFER - self.to_guest.len()) as nat
        }
    }

    /// Room for bytes of the guest.
    pub open spec fn readable_room(self) -> nat {
        if self.from_guest.len() >= HOST_BUFFER {
            0
        } else {
            (HOST_BUFFER - self.from_guest.len()) as nat
        }
    }
}

impl HostEnd {
    pub fn new(flow: Flow) -> (r: Self)
        ensures
            r@ == End::asked(flow),
    {
        let r = HostEnd {
            flow,
            pending_open: true,
            to_guest: VecDeque::new(),
            from_guest: VecDeque::new(),
            shutdown: false,
            abort: false,
            guest_fin: false,
            closed: None,
            released: false,
        };
        assert(r@ =~= End::asked(flow));
        r
    }

    /// Room for bytes of the host.
    pub fn room(&self) -> (r: usize)
        ensures
            r == self@.writable(),
    {
        if self.shutdown || self.abort || self.closed.is_some() || self.to_guest.len()
            >= HOST_BUFFER {
            0
        } else {
            HOST_BUFFER - self.to_guest.len()
        }
    }

    /// Room for bytes of the guest.
    fn inbox_room(&self) -> (r: usize)
        ensures
            r == self@.readable_room(),
    {
        if self.from_guest.len() >= HOST_BUFFER { 0 } else { HOST_BUFFER - self.from_guest.len() }
    }
}

impl HostSide {
    pub fn new() -> (r: Self)
        ensures
            r.model() == (Ends { conns: Seq::empty(), next_port: FIRST_EPHEMERAL_PORT }),
    {
        HostSide { conns: Table::new(), next_port: FIRST_EPHEMERAL_PORT }
    }

    /// The connection `id` is the host's.
    pub fn owns(&self, id: ConnId) -> (r: bool)
        ensures
            r == keyed(self.model().conns, id),
    {
        self.conns.find(id).is_some()
    }
}

impl Ends {
    /// The end of `id` replaced.
    pub open spec fn set(self, id: ConnId, e: End) -> Ends {
        Ends { conns: self.conns.update(rank(self.conns, id), (id, e)), ..self }
    }
}

impl Upstream for HostSide {
    type Model = Ends;

    open spec fn model(&self) -> Ends {
        Ends { conns: self.conns@, next_port: self.next_port }
    }

    open spec fn opened(m: Ends, now: VirtualTime, id: ConnId, flow: Flow) -> Ends {
        m
    }

    open spec fn status_next(m: Ends, now: VirtualTime, id: ConnId) -> Ends {
        m
    }

    open spec fn status(m: Ends, now: VirtualTime, id: ConnId) -> TcpStatus {
        TcpStatus::Connected
    }

    open spec fn write_next(m: Ends, now: VirtualTime, id: ConnId, data: Seq<u8>) -> Ends {
        if keyed(m.conns, id) {
            let e = value(m.conns, id);
            let n = min_len(data.len(), e.readable_room());
            m.set(id, End { from_guest: e.from_guest + data.take(n as int), ..e })
        } else {
            m
        }
    }

    open spec fn write_count(m: Ends, now: VirtualTime, id: ConnId, data: Seq<u8>) -> usize {
        if keyed(m.conns, id) {
            min_len(data.len(), value(m.conns, id).readable_room()) as usize
        } else {
            data.len() as usize
        }
    }

    open spec fn read_next(m: Ends, now: VirtualTime, id: ConnId, room: nat) -> Ends {
        if keyed(m.conns, id) {
            let e = value(m.conns, id);
            let n = min_len(e.to_guest.len(), room);
            m.set(id, End { to_guest: e.to_guest.skip(n as int), ..e })
        } else {
            m
        }
    }

    open spec fn read_result(m: Ends, now: VirtualTime, id: ConnId, room: nat) -> TcpRead {
        if keyed(m.conns, id) {
            let e = value(m.conns, id);
            if e.to_guest.len() > 0 {
                TcpRead::Data(min_len(e.to_guest.len(), room) as usize)
            } else if e.shutdown {
                TcpRead::Eof
            } else {
                TcpRead::WouldBlock
            }
        } else {
            TcpRead::Reset
        }
    }

    open spec fn read_data(m: Ends, now: VirtualTime, id: ConnId, room: nat) -> Seq<u8> {
        let e = value(m.conns, id);
        e.to_guest.take(min_len(e.to_guest.len(), room) as int)
    }

    open spec fn shut(m: Ends, now: VirtualTime, id: ConnId) -> Ends {
        if keyed(m.conns, id) {
            m.set(id, End { guest_fin: true, ..value(m.conns, id) })
        } else {
            m
        }
    }

    open spec fn closed(m: Ends, now: VirtualTime, id: ConnId, reset: bool) -> Ends {
        m
    }

    open spec fn udp_sent(
        m: Ends,
        now: VirtualTime,
        id: ConnId,
        flow: Flow,
        data: Seq<u8>,
    ) -> Ends {
        m
    }

    open spec fn udp_next(m: Ends, now: VirtualTime) -> Ends {
        m
    }

    open spec fn udp_result(m: Ends, now: VirtualTime) -> Option<(ConnId, Seq<u8>)> {
        None
    }

    open spec fn udp_ready(m: Ends) -> nat {
        0
    }

    open spec fn udp_closed(m: Ends, now: VirtualTime, id: ConnId) -> Ends {
        m
    }

    open spec fn ping_next(m: Ends, now: VirtualTime, dst: Ipv4Addr) -> Ends {
        m
    }

    open spec fn ping_answer(m: Ends, now: VirtualTime, dst: Ipv4Addr) -> bool {
        false
    }

    proof fn read_fits(m: Ends, now: VirtualTime, id: ConnId, room: usize) {
    }

    proof fn udp_drains(m: Ends, now: VirtualTime) {
    }

    fn tcp_open(&mut self, now: VirtualTime, id: ConnId, flow: Flow) {
    }

    fn tcp_status(&mut self, now: VirtualTime, id: ConnId) -> (r: TcpStatus) {
        TcpStatus::Connected
    }

    fn tcp_write(&mut self, now: VirtualTime, id: ConnId, data: &[u8]) -> (n: usize) {
        match self.conns.find(id) {
            None => data.len(),
            Some(i) => {
                let c: &mut HostEnd = self.conns.slot(i);
                let room: usize = c.inbox_room();
                let n: usize = if data.len() <= room { data.len() } else { room };
                let part: &[u8] = vstd::slice::slice_subrange(data, 0, n);
                assert(part@ =~= data@.take(n as int));
                queue_bytes(&mut c.from_guest, part);
                n
            },
        }
    }

    fn tcp_read(&mut self, now: VirtualTime, id: ConnId, buf: &mut [u8]) -> (r: TcpRead) {
        match self.conns.find(id) {
            None => TcpRead::Reset,
            Some(i) => {
                let c: &mut HostEnd = self.conns.slot(i);
                if c.to_guest.len() == 0 {
                    proof {
                        assert(c.to_guest@.skip(0) =~= c.to_guest@);
                        assert(c@ =~= End { to_guest: c.to_guest@.skip(0), ..c@ });
                    }
                    return if c.shutdown { TcpRead::Eof } else { TcpRead::WouldBlock };
                }
                let n: usize = drain_into(&mut c.to_guest, buf);
                TcpRead::Data(n)
            },
        }
    }

    fn tcp_shutdown(&mut self, now: VirtualTime, id: ConnId) {
        match self.conns.find(id) {
            None => {},
            Some(i) => {
                let c: &mut HostEnd = self.conns.slot(i);
                c.guest_fin = true;
            },
        }
    }

    /// The stack copies the reason from the connection when it is over.
    fn tcp_close(&mut self, now: VirtualTime, id: ConnId, reset: bool) {
    }

    fn udp_send(&mut self, now: VirtualTime, id: ConnId, flow: Flow, data: &[u8]) {
    }

    fn udp_recv(&mut self, now: VirtualTime) -> (r: Option<(ConnId, Vec<u8>)>) {
        None
    }

    fn udp_close(&mut self, now: VirtualTime, id: ConnId) {
    }

    fn ping(&mut self, now: VirtualTime, dst: Ipv4Addr) -> (r: bool) {
        false
    }
}

} // verus!
