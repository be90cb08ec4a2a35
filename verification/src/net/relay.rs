//! Interface to the relay: the guest's connections really go out, but from an
//! outside process, because a browser cannot open TCP/UDP sockets.
//!
//! Here are the abstract protocol ([`RelayMessage`]), the transport
//! ([`Relay`]), the adapter [`RelayUpstream`] that turns the calls of
//! [`Upstream`] into messages, and a relay in memory ([`MemoryRelay`]) to try it
//! with.
use vstd::prelude::*;
use std::collections::VecDeque;
use crate::bytes::{drain_into, min_len, queue_bytes, to_vec};
use crate::net::addr::{ConnId, Flow, Ipv4Addr, SocketAddrV4, VirtualTime};
use crate::net::dns::{build_response, parse_query, question_in, response, RCODE_NOERROR, RCODE_NXDOMAIN, TYPE_A};
use crate::net::names::{addr_of, NameTable};
use crate::net::sinkhole::datagrams;
use crate::net::upstream::{TcpRead, TcpStatus, Upstream};
use crate::table::{keyed, put, rank, value, without, Table};

verus! {

/// Messages between the stack (host) and the relay. The `id`s are those of the
/// stack.
#[derive(Clone, Debug, PartialEq, Eq)]
pub enum RelayMessage {
    /// Host to relay: open a TCP connection to `dst`.
    TcpConnect { id: ConnId, dst: SocketAddrV4 },
    /// Relay to host: connection open.
    TcpConnected { id: ConnId },
    /// Relay to host: connection refused or unreachable.
    TcpRefused { id: ConnId },
    /// In both directions: bytes of the connection.
    TcpData { id: ConnId, data: Vec<u8> },
    /// In both directions: the sender has closed its direction (FIN).
    TcpShutdown { id: ConnId },
    /// In both directions: connection over; `reset` if broken.
    TcpClose { id: ConnId, reset: bool },
    /// Host to relay: UDP datagram to `dst`.
    UdpSend { id: ConnId, dst: SocketAddrV4, data: Vec<u8> },
    /// Relay to host: datagram in answer on the flow `id`.
    UdpRecv { id: ConnId, data: Vec<u8> },
    /// Host to relay: UDP flow expired.
    UdpClose { id: ConnId },
}

/// What a [`RelayMessage`] says.
#[verifier::ext_equal]
pub enum Note {
    TcpConnect { id: ConnId, dst: SocketAddrV4 },
    TcpConnected { id: ConnId },
    TcpRefused { id: ConnId },
    TcpData { id: ConnId, data: Seq<u8> },
    TcpShutdown { id: ConnId },
    TcpClose { id: ConnId, reset: bool },
    UdpSend { id: ConnId, dst: SocketAddrV4, data: Seq<u8> },
    UdpRecv { id: ConnId, data: Seq<u8> },
    UdpClose { id: ConnId },
}

impl View for RelayMessage {
    type V = Note;

    open spec fn view(&self) -> Note {
        match *self {
            RelayMessage::TcpConnect { id, dst } => Note::TcpConnect { id, dst },
            RelayMessage::TcpConnected { id } => Note::TcpConnected { id },
            RelayMessage::TcpRefused { id } => Note::TcpRefused { id },
            RelayMessage::TcpData { id, data } => Note::TcpData { id, data: data@ },
            RelayMessage::TcpShutdown { id } => Note::TcpShutdown { id },
            RelayMessage::TcpClose { id, reset } => Note::TcpClose { id, reset },
            RelayMessage::UdpSend { id, dst, data } => Note::UdpSend { id, dst, data: data@ },
            RelayMessage::UdpRecv { id, data } => Note::UdpRecv { id, data: data@ },
            RelayMessage::UdpClose { id } => Note::UdpClose { id },
        }
    }
}

pub open spec fn notes(s: Seq<RelayMessage>) -> Seq<Note> {
    s.map_values(|m: RelayMessage| m@)
}

impl RelayMessage {
    fn copied(&self) -> (r: Self)
        ensures
            r@ == self@,
    {
        match self {
            RelayMessage::TcpConnect { id, dst } => RelayMessage::TcpConnect { id: *id, dst: *dst },
            RelayMessage::TcpConnected { id } => RelayMessage::TcpConnected { id: *id },
            RelayMessage::TcpRefused { id } => RelayMessage::TcpRefused { id: *id },
            RelayMessage::TcpData { id, data } => RelayMessage::TcpData {
                id: *id,
                data: to_vec(data.as_slice()),
            },
            RelayMessage::TcpShutdown { id } => RelayMessage::TcpShutdown { id: *id },
            RelayMessage::TcpClose { id, reset } => RelayMessage::TcpClose {
                id: *id,
                reset: *reset,
            },
            RelayMessage::UdpSend { id, dst, data } => RelayMessage::UdpSend {
                id: *id,
                dst: *dst,
                data: to_vec(data.as_slice()),
            },
            RelayMessage::UdpRecv { id, data } => RelayMessage::UdpRecv {
                id: *id,
                data: to_vec(data.as_slice()),
            },
            RelayMessage::UdpClose { id } => RelayMessage::UdpClose { id: *id },
        }
    }
}

/// Transport of the messages to the relay. It does not block: `recv` returns
/// `None` if there is nothing to read now.
///
/// `Model` is its abstract state; the spec functions give the state after each
/// call and what `recv` returns. By default they are those of a relay that never
/// sends anything back.
pub trait Relay: Sized {
    type Model;

    spec fn model(&self) -> Self::Model;

    open spec fn sent(m: Self::Model, msg: Note) -> Self::Model {
        m
    }

    open spec fn next(m: Self::Model) -> Self::Model {
        m
    }

    open spec fn received(m: Self::Model) -> Option<Note> {
        None
    }

    /// A bound on the messages that are ready to be received.
    open spec fn ready(m: Self::Model) -> nat {
        0
    }

    /// Receiving a message leaves fewer to receive.
    proof fn drains(m: Self::Model)
        ensures
            Self::received(m) is Some ==> Self::ready(Self::next(m)) < Self::ready(m),
    ;

    /// Looking in vain makes none ready.
    proof fn quiet(m: Self::Model)
        ensures
            Self::received(m) is None ==> Self::ready(Self::next(m)) <= Self::ready(m),
    ;

    fn send(&mut self, msg: RelayMessage)
        ensures
            final(self).model() == Self::sent(old(self).model(), msg@),
    ;

    fn recv(&mut self) -> (r: Option<RelayMessage>)
        ensures
            final(self).model() == Self::next(old(self).model()),
            match r {
                Some(msg) => Self::received(old(self).model()) == Some(msg@),
                None => Self::received(old(self).model()) is None,
            },
    ;
}

/// What is known of a connection through the relay.
#[derive(Debug)]
pub struct RelayConn {
    pub status: Option<TcpStatus>,
    pub inbox: VecDeque<u8>,
    pub eof: bool,
    pub reset: bool,
}

/// What a [`RelayConn`] holds.
#[verifier::ext_equal]
pub struct Link {
    pub status: Option<TcpStatus>,
    pub inbox: Seq<u8>,
    pub eof: bool,
    pub reset: bool,
}

impl View for RelayConn {
    type V = Link;

    open spec fn view(&self) -> Link {
        Link { status: self.status, inbox: self.inbox@, eof: self.eof, reset: self.reset }
    }
}

/// [`Upstream`] that forwards everything to a [`Relay`].
#[derive(Debug)]
pub struct RelayUpstream<R: Relay> {
    pub relay: R,
    pub conns: Table<RelayConn>,
    pub udp_inbox: VecDeque<(ConnId, Vec<u8>)>,
    /// The relay does not forward ICMP.
    pub answer_ping: bool,
}

/// What a [`RelayUpstream`] holds.
#[verifier::ext_equal]
pub struct Links<M> {
    pub relay: M,
    pub conns: Seq<(ConnId, Link)>,
    pub udp_inbox: Seq<(ConnId, Seq<u8>)>,
    pub answer_ping: bool,
}

impl<M> Links<M> {
    pub open spec fn set(self, id: ConnId, c: Link) -> Self {
        Links { conns: self.conns.update(rank(self.conns, id), (id, c)), ..self }
    }

    /// The effect of a message from the relay. Those that only go to the relay
    /// are ignored, and so are those for connections that are not there.
    pub open spec fn noted(self, n: Note) -> Self {
        match n {
            Note::TcpConnected { id } => if keyed(self.conns, id) {
                self.set(
                    id,
                    Link { status: Some(TcpStatus::Connected), ..value(self.conns, id) },
                )
            } else {
                self
            },
            Note::TcpRefused { id } => if keyed(self.conns, id) {
                self.set(id, Link { status: Some(TcpStatus::Refused), ..value(self.conns, id) })
            } else {
                self
            },
            Note::TcpData { id, data } => if keyed(self.conns, id) {
                let c = value(self.conns, id);
                self.set(id, Link { inbox: c.inbox + data, ..c })
            } else {
                self
            },
            Note::TcpShutdown { id } => if keyed(self.conns, id) {
                self.set(id, Link { eof: true, ..value(self.conns, id) })
            } else {
                self
            },
            Note::TcpClose { id, reset } => if keyed(self.conns, id) {
                let c = value(self.conns, id);
                self.set(id, Link { eof: true, reset: c.reset || reset, ..c })
            } else {
                self
            },
            Note::UdpRecv { id, data } => Links { udp_inbox: self.udp_inbox.push((id, data)), ..self },
            _ => self,
        }
    }
}

/// All the messages that the relay has ready take effect, in order.
pub open spec fn pumped<R: Relay>(m: Links<R::Model>) -> Links<R::Model>
    decreases R::ready(m.relay),
    via pumped_terminates::<R>
{
    match R::received(m.relay) {
        None => Links { relay: R::next(m.relay), ..m },
        Some(n) => pumped::<R>((Links { relay: R::next(m.relay), ..m }).noted(n)),
    }
}

#[via_fn]
proof fn pumped_terminates<R: Relay>(m: Links<R::Model>) {
    R::drains(m.relay);
}

impl<R: Relay> RelayUpstream<R> {
    pub fn new(relay: R) -> (r: Self)
        ensures
            r.model() == (Links {
                relay: relay.model(),
                conns: Seq::empty(),
                udp_inbox: Seq::empty(),
                answer_ping: false,
            }),
    {
        let r = RelayUpstream {
            relay,
            conns: Table::new(),
            udp_inbox: VecDeque::new(),
            answer_ping: false,
        };
        assert(datagrams(r.udp_inbox@) =~= Seq::empty());
        r
    }

    pub fn relay(&self) -> (r: &R)
        ensures
            *r == self.relay,
    {
        &self.relay
    }

    pub fn relay_mut(&mut self) -> (r: &mut R)
        ensures
            *r == old(self).relay,
            *final(self) == (RelayUpstream { relay: *final(r), ..*old(self) }),
    {
        &mut self.relay
    }

    fn note(&mut self, msg: RelayMessage)
        ensures
            final(self).model() == old(self).model().noted(msg@),
            final(self).relay == old(self).relay,
    {
        match msg {
            RelayMessage::TcpConnected { id } => {
                match self.conns.find(id) {
                    Some(i) => {
                        let c: &mut RelayConn = self.conns.slot(i);
                        c.status = Some(TcpStatus::Connected);
                    },
                    None => {},
                }
            },
            RelayMessage::TcpRefused { id } => {
                match self.conns.find(id) {
                    Some(i) => {
                        let c: &mut RelayConn = self.conns.slot(i);
                        c.status = Some(TcpStatus::Refused);
                    },
                    None => {},
                }
            },
            RelayMessage::TcpData { id, data } => {
                match self.conns.find(id) {
                    Some(i) => {
                        let c: &mut RelayConn = self.conns.slot(i);
                        queue_bytes(&mut c.inbox, data.as_slice());
                    },
                    None => {},
                }
            },
            RelayMessage::TcpShutdown { id } => {
                match self.conns.find(id) {
                    Some(i) => {
                        let c: &mut RelayConn = self.conns.slot(i);
                        c.eof = true;
                    },
                    None => {},
                }
            },
            RelayMessage::TcpClose { id, reset } => {
                match self.conns.find(id) {
                    Some(i) => {
                        let c: &mut RelayConn = self.conns.slot(i);
                        c.eof = true;
                        c.reset = c.reset || reset;
                    },
                    None => {},
                }
            },
            RelayMessage::UdpRecv { id, data } => {
                self.udp_inbox.push_back((id, data));
                assert(datagrams(self.udp_inbox@) =~= datagrams(old(self).udp_inbox@).push(
                    (id, data@),
                ));
            },
            RelayMessage::TcpConnect { .. } => {},
            RelayMessage::UdpSend { .. } => {},
            RelayMessage::UdpClose { .. } => {},
        }
    }

    /// Reads all the messages that the relay has ready.
    fn pump(&mut self)
        ensures
            final(self).model() == pumped::<R>(old(self).model()),
    {
        let ghost goal = pumped::<R>(self.model());
        loop
            invariant_except_break
                pumped::<R>(self.model()) == goal,
            invariant
                goal == pumped::<R>(old(self).model()),
            ensures
                self.model() == goal,
            decreases R::ready(self.relay.model()),
        {
            proof {
                R::drains(self.relay.model());
            }
            match self.relay.recv() {
                Some(msg) => {
                    self.note(msg);
                },
                None => {
                    break;
                },
            }
        }
    }
}

impl<R: Relay> Upstream for RelayUpstream<R> {
    type Model = Links<R::Model>;

    open spec fn model(&self) -> Links<R::Model> {
        Links {
            relay: self.relay.model(),
            conns: self.conns@,
            udp_inbox: datagrams(self.udp_inbox@),
            answer_ping: self.answer_ping,
        }
    }

    open spec fn opened(m: Links<R::Model>, now: VirtualTime, id: ConnId, flow: Flow) -> Links<
        R::Model,
    > {
        Links {
            conns: put(
                m.conns,
                id,
                Link { status: None, inbox: Seq::empty(), eof: false, reset: false },
            ),
            relay: R::sent(m.relay, Note::TcpConnect { id, dst: flow.remote }),
            ..m
        }
    }

    open spec fn status_next(m: Links<R::Model>, now: VirtualTime, id: ConnId) -> Links<R::Model> {
        pumped::<R>(m)
    }

    open spec fn status(m: Links<R::Model>, now: VirtualTime, id: ConnId) -> TcpStatus {
        let p = pumped::<R>(m);
        if keyed(p.conns, id) {
            match value(p.conns, id).status {
                Some(s) => s,
                None => TcpStatus::Pending,
            }
        } else {
            TcpStatus::Refused
        }
    }

    open spec fn write_next(
        m: Links<R::Model>,
        now: VirtualTime,
        id: ConnId,
        data: Seq<u8>,
    ) -> Links<R::Model> {
        if data.len() > 0 {
            Links { relay: R::sent(m.relay, Note::TcpData { id, data }), ..m }
        } else {
            m
        }
    }

    open spec fn write_count(
        m: Links<R::Model>,
        now: VirtualTime,
        id: ConnId,
        data: Seq<u8>,
    ) -> usize {
        data.len() as usize
    }

    open spec fn read_next(m: Links<R::Model>, now: VirtualTime, id: ConnId, room: nat) -> Links<
        R::Model,
    > {
        let p = pumped::<R>(m);
        if keyed(p.conns, id) && !value(p.conns, id).reset {
            let c = value(p.conns, id);
            p.set(id, Link { inbox: c.inbox.skip(min_len(c.inbox.len(), room) as int), ..c })
        } else {
            p
        }
    }

    open spec fn read_result(
        m: Links<R::Model>,
        now: VirtualTime,
        id: ConnId,
        room: nat,
    ) -> TcpRead {
        let p = pumped::<R>(m);
        if keyed(p.conns, id) {
            let c = value(p.conns, id);
            if c.reset {
                TcpRead::Reset
            } else if c.inbox.len() > 0 {
                TcpRead::Data(min_len(c.inbox.len(), room) as usize)
            } else if c.eof {
                TcpRead::Eof
            } else {
                TcpRead::WouldBlock
            }
        } else {
            TcpRead::Reset
        }
    }

    open spec fn read_data(m: Links<R::Model>, now: VirtualTime, id: ConnId, room: nat) -> Seq<u8> {
        let c = value(pumped::<R>(m).conns, id);
        c.inbox.take(min_len(c.inbox.len(), room) as int)
    }

    open spec fn shut(m: Links<R::Model>, now: VirtualTime, id: ConnId) -> Links<R::Model> {
        Links { relay: R::sent(m.relay, Note::TcpShutdown { id }), ..m }
    }

    open spec fn closed(m: Links<R::Model>, now: VirtualTime, id: ConnId, reset: bool) -> Links<
        R::Model,
    > {
        if keyed(m.conns, id) {
            Links {
                conns: without(m.conns, id),
                relay: R::sent(m.relay, Note::TcpClose { id, reset }),
                ..m
            }
        } else {
            m
        }
    }

    open spec fn udp_sent(
        m: Links<R::Model>,
        now: VirtualTime,
        id: ConnId,
        flow: Flow,
        data: Seq<u8>,
    ) -> Links<R::Model> {
        Links { relay: R::sent(m.relay, Note::UdpSend { id, dst: flow.remote, data }), ..m }
    }

    open spec fn udp_next(m: Links<R::Model>, now: VirtualTime) -> Links<R::Model> {
        let p = pumped::<R>(m);
        if p.udp_inbox.len() > 0 { Links { udp_inbox: p.udp_inbox.skip(1), ..p } } else { p }
    }

    open spec fn udp_result(m: Links<R::Model>, now: VirtualTime) -> Option<(ConnId, Seq<u8>)> {
        let p = pumped::<R>(m);
        if p.udp_inbox.len() > 0 { Some(p.udp_inbox[0]) } else { None }
    }

    open spec fn udp_ready(m: Links<R::Model>) -> nat {
        R::ready(m.relay) + m.udp_inbox.len()
    }

    open spec fn udp_closed(m: Links<R::Model>, now: VirtualTime, id: ConnId) -> Links<R::Model> {
        Links { relay: R::sent(m.relay, Note::UdpClose { id }), ..m }
    }

    open spec fn ping_next(m: Links<R::Model>, now: VirtualTime, dst: Ipv4Addr) -> Links<R::Model> {
        m
    }

    open spec fn ping_answer(m: Links<R::Model>, now: VirtualTime, dst: Ipv4Addr) -> bool {
        m.answer_ping
    }

    proof fn read_fits(m: Links<R::Model>, now: VirtualTime, id: ConnId, room: usize) {
    }

    proof fn udp_drains(m: Links<R::Model>, now: VirtualTime) {
        lemma_pump_bounds::<R>(m);
    }

    fn tcp_open(&mut self, now: VirtualTime, id: ConnId, flow: Flow) {
        let c = RelayConn { status: None, inbox: VecDeque::new(), eof: false, reset: false };
        assert(c@ =~= Link { status: None, inbox: Seq::empty(), eof: false, reset: false });
        self.conns.insert(id, c);
        self.relay.send(RelayMessage::TcpConnect { id, dst: flow.remote });
    }

    fn tcp_status(&mut self, now: VirtualTime, id: ConnId) -> (r: TcpStatus) {
        self.pump();
        match self.conns.get(id) {
            Some(c) => match c.status {
                Some(s) => s,
                None => TcpStatus::Pending,
            },
            None => TcpStatus::Refused,
        }
    }

    fn tcp_write(&mut self, now: VirtualTime, id: ConnId, data: &[u8]) -> (n: usize) {
        if data.len() > 0 {
            self.relay.send(RelayMessage::TcpData { id, data: to_vec(data) });
        }
        data.len()
    }

    fn tcp_read(&mut self, now: VirtualTime, id: ConnId, buf: &mut [u8]) -> (r: TcpRead) {
        self.pump();
        match self.conns.find(id) {
            None => TcpRead::Reset,
            Some(i) => {
                if self.conns.entries[i].1.reset {
                    return TcpRead::Reset;
                }
                let c: &mut RelayConn = self.conns.slot(i);
                if c.inbox.len() == 0 {
                    proof {
                        assert(c.inbox@.skip(0) =~= c.inbox@);
                        assert(c@ =~= Link { inbox: c.inbox@.skip(0), ..c@ });
                    }
                    return if c.eof { TcpRead::Eof } else { TcpRead::WouldBlock };
                }
                let n: usize = drain_into(&mut c.inbox, buf);
                TcpRead::Data(n)
            },
        }
    }

    fn tcp_shutdown(&mut self, now: VirtualTime, id: ConnId) {
        self.relay.send(RelayMessage::TcpShutdown { id });
    }

    fn tcp_close(&mut self, now: VirtualTime, id: ConnId, reset: bool) {
        if self.conns.remove(id).is_some() {
            self.relay.send(RelayMessage::TcpClose { id, reset });
        }
    }

    fn udp_send(&mut self, now: VirtualTime, id: ConnId, flow: Flow, data: &[u8]) {
        self.relay.send(RelayMessage::UdpSend { id, dst: flow.remote, data: to_vec(data) });
    }

    fn udp_recv(&mut self, now: VirtualTime) -> (r: Option<(ConnId, Vec<u8>)>) {
        self.pump();
        let ghost m = self.model();
        let r: Option<(ConnId, Vec<u8>)> = self.udp_inbox.pop_front();
        proof {
            if r is Some {
                assert(datagrams(self.udp_inbox@) =~= m.udp_inbox.skip(1));
                assert(m.udp_inbox[0] == ((r->0).0, (r->0).1@));
            }
        }
        r
    }

    fn udp_close(&mut self, now: VirtualTime, id: ConnId) {
        self.relay.send(RelayMessage::UdpClose { id });
    }

    fn ping(&mut self, now: VirtualTime, dst: Ipv4Addr) -> (r: bool) {
        self.answer_ping
    }
}

/// Every message that is pumped brings at most one datagram.
proof fn lemma_pump_bounds<R: Relay>(m: Links<R::Model>)
    ensures
        ({
            let p = pumped::<R>(m);
            R::ready(p.relay) + p.udp_inbox.len() <= R::ready(m.relay) + m.udp_inbox.len()
        }),
    decreases R::ready(m.relay),
{
    R::drains(m.relay);
    match R::received(m.relay) {
        None => {
            R::quiet(m.relay);
        },
        Some(n) => {
            lemma_pump_bounds::<R>((Links { relay: R::next(m.relay), ..m }).noted(n));
        },
    }
}

/// Relay in memory: it plays the part of the relay process and of the network.
///
/// - TCP: an echo service (it sends the bytes back) at any destination, except
///   the ports in `refused_ports`; when the host closes its direction, it closes
///   its own.
/// - UDP to port 53: it resolves with the table `hosts` (NXDOMAIN for the names
///   that are not there). Other UDP: echo.
///
/// It records every message received from the host in `sent`.
#[derive(Debug)]
pub struct MemoryRelay {
    pub refused_ports: Vec<u16>,
    pub hosts: NameTable,
    /// Messages received from the host, in order.
    pub sent: Vec<RelayMessage>,
    /// Messages waiting to be read by the host.
    pub inbox: VecDeque<RelayMessage>,
}

/// What a [`MemoryRelay`] holds.
#[verifier::ext_equal]
pub struct Echo {
    pub refused_ports: Seq<u16>,
    pub hosts: Seq<(Seq<char>, Ipv4Addr)>,
    pub sent: Seq<Note>,
    pub inbox: Seq<Note>,
}

impl Echo {
    /// A relay that knows nobody and has heard nothing.
    pub open spec fn fresh() -> Echo {
        Echo {
            refused_ports: Seq::empty(),
            hosts: Seq::empty(),
            sent: Seq::empty(),
            inbox: Seq::empty(),
        }
    }

    /// What the relay has to say to a message.
    pub open spec fn reaction(self, n: Note) -> Seq<Note> {
        match n {
            Note::TcpConnect { id, dst } => if self.refused_ports.contains(dst.port) {
                seq![Note::TcpRefused { id }]
            } else {
                seq![Note::TcpConnected { id }]
            },
            Note::TcpData { id, data } => seq![Note::TcpData { id, data }],
            Note::TcpShutdown { id } => seq![Note::TcpShutdown { id }],
            Note::UdpSend { id, dst, data } => if dst.port == 53 {
                match question_in(data) {
                    None => Seq::empty(),
                    Some(q) => {
                        let known = addr_of(self.hosts, q.name);
                        let rcode = if known is Some { RCODE_NOERROR } else { RCODE_NXDOMAIN };
                        let addrs = if known is Some && q.qtype == TYPE_A {
                            seq![known->0]
                        } else {
                            Seq::empty()
                        };
                        seq![Note::UdpRecv { id, data: response(q, rcode, addrs, 60) }]
                    },
                }
            } else {
                seq![Note::UdpRecv { id, data }]
            },
            _ => Seq::empty(),
        }
    }
}

impl Default for MemoryRelay {
    fn default() -> (r: Self)
        ensures
            r.model() == Echo::fresh(),
    {
        MemoryRelay::new()
    }
}

impl MemoryRelay {
    pub fn new() -> (r: Self)
        ensures
            r.model() == Echo::fresh(),
    {
        let r = MemoryRelay {
            refused_ports: Vec::new(),
            hosts: NameTable::new(),
            sent: Vec::new(),
            inbox: VecDeque::new(),
        };
        assert(notes(r.sent@) =~= Seq::empty());
        assert(notes(r.inbox@) =~= Seq::empty());
        r
    }

    fn refuses(&self, port: u16) -> (r: bool)
        ensures
            r == self.refused_ports@.contains(port),
    {
        let mut i: usize = 0;
        while i < self.refused_ports.len()
            invariant
                i <= self.refused_ports@.len(),
                forall|k: int| 0 <= k < i ==> self.refused_ports@[k] != port,
            decreases self.refused_ports@.len() - i,
        {
            if self.refused_ports[i] == port {
                return true;
            }
            i += 1;
        }
        false
    }

    /// What the relay has to say to a message, if anything.
    fn react(&self, msg: RelayMessage) -> (r: Option<RelayMessage>)
        ensures
            match r {
                Some(m) => self.model().reaction(msg@) == seq![m@],
                None => self.model().reaction(msg@) == Seq::<Note>::empty(),
            },
    {
        match msg {
            RelayMessage::TcpConnect { id, dst } => if self.refuses(dst.port) {
                Some(RelayMessage::TcpRefused { id })
            } else {
                Some(RelayMessage::TcpConnected { id })
            },
            RelayMessage::TcpData { id, data } => Some(RelayMessage::TcpData { id, data }),
            RelayMessage::TcpShutdown { id } => Some(RelayMessage::TcpShutdown { id }),
            RelayMessage::UdpSend { id, dst, data } => {
                if dst.port == 53 {
                    match parse_query(data.as_slice()) {
                        None => None,
                        Some(q) => {
                            let mut addrs: Vec<Ipv4Addr> = Vec::new();
                            let rcode: u8 = match self.hosts.get(&q.name) {
                                Some(a) => {
                                    if q.qtype == TYPE_A {
                                        addrs.push(a);
                                    }
                                    RCODE_NOERROR
                                },
                                None => RCODE_NXDOMAIN,
                            };
                            proof {
                                let known = addr_of(self.hosts@, q.name@);
                                assert(addrs@ =~= if known is Some && q.qtype == TYPE_A {
                                    seq![known->0]
                                } else {
                                    Seq::empty()
                                });
                            }
                            let data: Vec<u8> = build_response(&q, rcode, addrs.as_slice(), 60);
                            Some(RelayMessage::UdpRecv { id, data })
                        },
                    }
                } else {
                    Some(RelayMessage::UdpRecv { id, data })
                }
            },
            _ => None,
        }
    }
}

impl Relay for MemoryRelay {
    type Model = Echo;

    open spec fn model(&self) -> Echo {
        Echo {
            refused_ports: self.refused_ports@,
            hosts: self.hosts@,
            sent: notes(self.sent@),
            inbox: notes(self.inbox@),
        }
    }

    open spec fn sent(m: Echo, msg: Note) -> Echo {
        Echo { sent: m.sent.push(msg), inbox: m.inbox + m.reaction(msg), ..m }
    }

    open spec fn next(m: Echo) -> Echo {
        if m.inbox.len() > 0 { Echo { inbox: m.inbox.skip(1), ..m } } else { m }
    }

    open spec fn received(m: Echo) -> Option<Note> {
        if m.inbox.len() > 0 { Some(m.inbox[0]) } else { None }
    }

    open spec fn ready(m: Echo) -> nat {
        m.inbox.len()
    }

    proof fn drains(m: Echo) {
    }

    proof fn quiet(m: Echo) {
    }

    fn send(&mut self, msg: RelayMessage) {
        let ghost m = self.model();
        self.sent.push(msg.copied());
        assert(notes(self.sent@) =~= m.sent.push(msg@));
        let ghost n = msg@;
        match self.react(msg) {
            Some(reply) => {
                self.inbox.push_back(reply);
                assert(notes(self.inbox@) =~= m.inbox + m.reaction(n));
            },
            None => {
                assert(notes(self.inbox@) =~= m.inbox + m.reaction(n));
            },
        }
    }

    fn recv(&mut self) -> (r: Option<RelayMessage>) {
        let ghost m = self.model();
        let r: Option<RelayMessage> = self.inbox.pop_front();
        proof {
            if r is Some {
                assert(notes(self.inbox@) =~= m.inbox.skip(1));
                assert(m.inbox[0] == (r->0)@);
            }
        }
        r
    }
}

} // verus!
