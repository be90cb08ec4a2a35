//! virtio-vsock: stream sockets between guest and host.
//!
//! Queues: 0 = rx (device to driver), 1 = tx (driver to device), 2 = events.
//! Configuration: `guest_cid`. Feature offered: STREAM.
//!
//! The host sits inside the device: CID 2, with calls to listen, connect to a
//! port of the guest, send and receive bytes and close. Every operation of the
//! host becomes packets at the next service, in a fixed order: first the control
//! packets in the order in which they arose, then the data of the connections in
//! order of (host port, guest port). Local ports of the host are assigned in
//! sequence from [`FIRST_HOST_PORT`] on.
//!
//! - REQUEST to a port that listens: RESPONSE, and the connection waits for
//!   `accept`; to a closed port: RST.
//! - A packet (not RST) without a connection, or not of type stream: RST.
//! - Packets with the wrong CIDs are dropped.
//! - Credit: the host sends no more than `buf_alloc - (tx_cnt - fwd_cnt)` bytes
//!   of the guest; it announces its own buffer and the bytes consumed in every
//!   packet, and sends CREDIT_UPDATE when the host consumes data and the guest
//!   sees less than [`CREDIT_THRESHOLD`] free bytes, or on CREDIT_REQUEST.
//! - SHUTDOWN of the guest with both bits: RST, and the connection is closed (the
//!   data received stays readable); a close of the host sends SHUTDOWN after the
//!   last data and waits for the guest's RST.
use std::collections::VecDeque;
use vstd::prelude::*;
use crate::bytes::{le16, le16_at, le16_bytes, le32, le32_at, le32_bytes, le64, le64_at, le64_bytes, min_len, push_bytes, push_le16, push_le32, push_le64, push_zeros, queue_bytes, take_front, zeros};
use crate::platform::virtio::queue::{gathered, lemma_gathered_len, scattered, total, Chain, DescChain, QueueError, Virtqueue};
use crate::platform::virtio::ram::{GuestRam, Mem, RamError};
use crate::platform::virtio::vsock_laws::{law_host_keeps_order, vsock_in_order};
use crate::platform::virtio::{read_config_bytes, ServiceCtx, VirtioDevice, Work, ID_VSOCK, SERVICE_LIMIT};
use crate::table::{keyed, put, rank, value, without, Table};

verus! {

pub const F_STREAM: u64 = 0x1;
pub const F_SEQPACKET: u64 = 0x2;

/// CID of the host.
pub const HOST_CID: u64 = 2;
/// Default CID of the guest (the first free one).
pub const DEFAULT_GUEST_CID: u64 = 3;
/// First local port that the host assigns in [`VirtioVsock::connect`].
pub const FIRST_HOST_PORT: u32 = 49152;
/// Receive buffer of the host announced to the guest (256 KiB).
pub const HOST_BUF_ALLOC: u32 = 0x4_0000;
/// Below this free room seen by the guest the host sends CREDIT_UPDATE.
pub const CREDIT_THRESHOLD: u32 = 0x1_0000;
/// Largest load of a packet.
pub const MAX_PKT: usize = 0x1_0000;

pub const TYPE_STREAM: u16 = 1;
pub const OP_REQUEST: u16 = 1;
pub const OP_RESPONSE: u16 = 2;
pub const OP_RST: u16 = 3;
pub const OP_SHUTDOWN: u16 = 4;
pub const OP_RW: u16 = 5;
pub const OP_CREDIT_UPDATE: u16 = 6;
pub const OP_CREDIT_REQUEST: u16 = 7;
/// Bits of SHUTDOWN: no more reception / transmission.
pub const SHUTDOWN_RCV: u32 = 1;
pub const SHUTDOWN_SEND: u32 = 2;
pub const SHUTDOWN_BOTH: u32 = 3;
pub const EVENT_TRANSPORT_RESET: u32 = 0;

pub const HDR_LEN: usize = 44;

/// Header of a packet.
#[derive(Clone, Copy, Debug, Default, PartialEq, Eq, Structural)]
pub struct Hdr {
    pub src_cid: u64,
    pub dst_cid: u64,
    pub src_port: u32,
    pub dst_port: u32,
    pub len: u32,
    pub ty: u16,
    pub op: u16,
    pub flags: u32,
    pub buf_alloc: u32,
    pub fwd_cnt: u32,
}

impl Hdr {
    pub open spec fn of(b: Seq<u8>) -> Hdr {
        Hdr {
            src_cid: le64_at(b, 0),
            dst_cid: le64_at(b, 8),
            src_port: le32_at(b, 16),
            dst_port: le32_at(b, 20),
            len: le32_at(b, 24),
            ty: le16_at(b, 28),
            op: le16_at(b, 30),
            flags: le32_at(b, 32),
            buf_alloc: le32_at(b, 36),
            fwd_cnt: le32_at(b, 40),
        }
    }

    pub open spec fn bytes(self) -> Seq<u8> {
        le64_bytes(self.src_cid) + le64_bytes(self.dst_cid) + le32_bytes(self.src_port)
            + le32_bytes(self.dst_port) + le32_bytes(self.len) + le16_bytes(self.ty)
            + le16_bytes(self.op) + le32_bytes(self.flags) + le32_bytes(self.buf_alloc)
            + le32_bytes(self.fwd_cnt)
    }

    pub fn read(b: &[u8]) -> (r: Self)
        requires
            b@.len() >= 44,
        ensures
            r == Self::of(b@),
    {
        Hdr {
            src_cid: le64(b, 0),
            dst_cid: le64(b, 8),
            src_port: le32(b, 16),
            dst_port: le32(b, 20),
            len: le32(b, 24),
            ty: le16(b, 28),
            op: le16(b, 30),
            flags: le32(b, 32),
            buf_alloc: le32(b, 36),
            fwd_cnt: le32(b, 40),
        }
    }

    pub fn parse(b: &[u8; 44]) -> (r: Self)
        ensures
            r == Self::of(b@),
    {
        Self::read(b)
    }

    pub fn to_bytes(self) -> (r: Vec<u8>)
        ensures
            r@ == self.bytes(),
            r@.len() == 44,
    {
        let mut b: Vec<u8> = Vec::new();
        push_le64(&mut b, self.src_cid);
        push_le64(&mut b, self.dst_cid);
        push_le32(&mut b, self.src_port);
        push_le32(&mut b, self.dst_port);
        push_le32(&mut b, self.len);
        push_le16(&mut b, self.ty);
        push_le16(&mut b, self.op);
        push_le32(&mut b, self.flags);
        push_le32(&mut b, self.buf_alloc);
        push_le32(&mut b, self.fwd_cnt);
        assert(b@ =~= self.bytes());
        b
    }
}

/// A connection, seen from the host: local port of the host and port of the
/// guest.
#[derive(Clone, Copy, Debug, PartialEq, Eq, PartialOrd, Ord, Hash, Structural)]
pub struct VsockConn {
    pub host_port: u32,
    pub guest_port: u32,
}

impl VsockConn {
    /// Number that orders connections by (host port, guest port).
    pub open spec fn key(self) -> u64 {
        (self.host_port * 0x1_0000_0000 + self.guest_port) as u64
    }

    pub open spec fn of(key: u64) -> VsockConn {
        VsockConn {
            host_port: (key / 0x1_0000_0000) as u32,
            guest_port: (key % 0x1_0000_0000) as u32,
        }
    }

    pub fn to_key(self) -> (r: u64)
        ensures
            r == self.key(),
            Self::of(r) == self,
            r / 0x1_0000_0000 == self.host_port,
    {
        self.host_port as u64 * 0x1_0000_0000 + self.guest_port as u64
    }

    pub fn from_key(key: u64) -> (r: VsockConn)
        ensures
            r == Self::of(key),
            r.key() == key,
    {
        VsockConn {
            host_port: (key / 0x1_0000_0000) as u32,
            guest_port: (key % 0x1_0000_0000) as u32,
        }
    }
}

/// State of a connection.
#[derive(Clone, Copy, Debug, PartialEq, Eq, Structural)]
pub enum VsockState {
    /// The host has asked for the connection, the guest has not answered yet.
    Connecting,
    Connected,
    /// The host has closed: SHUTDOWN sent (or waiting for the data), the guest's
    /// RST is awaited.
    Closing,
    /// Closed: refused by the guest, RST, close completed or reset of the
    /// transport. Data already received stays readable.
    Closed,
}

#[derive(Clone, Copy, Debug, PartialEq, Eq, Structural)]
pub enum VsockError {
    /// No such connection.
    NotFound,
    /// The host has already closed its transmitting side, or the connection is
    /// closed.
    Closed,
    /// The port of the host already listens or is in use.
    PortInUse,
}

/// One connection.
#[derive(Debug)]
pub struct VsockLink {
    pub state: VsockState,
    /// Credit of the guest (from the last packet received).
    pub peer_buf_alloc: u32,
    pub peer_fwd_cnt: u32,
    /// Bytes sent to the guest.
    pub tx_cnt: u32,
    /// Bytes received from the guest and consumed by the host.
    pub fwd_cnt: u32,
    /// `fwd_cnt` announced in the last packet sent.
    pub last_fwd_sent: u32,
    pub rx_cnt: u32,
    pub tx_buf: VecDeque<u8>,
    pub rx_buf: VecDeque<u8>,
    /// The guest will send no more data (SHUTDOWN with SEND).
    pub peer_eof: bool,
    /// Bits of SHUTDOWN to send when `tx_buf` is empty (0 = none).
    pub shutdown_pending: u32,
    /// The host has closed its transmitting side.
    pub send_closed: bool,
    pub credit_update: bool,
}

/// What a [`VsockLink`] holds.
#[verifier::ext_equal]
pub struct Link {
    pub state: VsockState,
    pub peer_buf_alloc: u32,
    pub peer_fwd_cnt: u32,
    pub tx_cnt: u32,
    pub fwd_cnt: u32,
    pub last_fwd_sent: u32,
    pub rx_cnt: u32,
    pub tx_buf: Seq<u8>,
    pub rx_buf: Seq<u8>,
    pub peer_eof: bool,
    pub shutdown_pending: u32,
    pub send_closed: bool,
    pub credit_update: bool,
}

impl View for VsockLink {
    type V = Link;

    open spec fn view(&self) -> Link {
        Link {
            state: self.state,
            peer_buf_alloc: self.peer_buf_alloc,
            peer_fwd_cnt: self.peer_fwd_cnt,
            tx_cnt: self.tx_cnt,
            fwd_cnt: self.fwd_cnt,
            last_fwd_sent: self.last_fwd_sent,
            rx_cnt: self.rx_cnt,
            tx_buf: self.tx_buf@,
            rx_buf: self.rx_buf@,
            peer_eof: self.peer_eof,
            shutdown_pending: self.shutdown_pending,
            send_closed: self.send_closed,
            credit_update: self.credit_update,
        }
    }
}

impl Link {
    pub open spec fn fresh(state: VsockState) -> Link {
        Link {
            state,
            peer_buf_alloc: 0,
            peer_fwd_cnt: 0,
            tx_cnt: 0,
            fwd_cnt: 0,
            last_fwd_sent: 0,
            rx_cnt: 0,
            tx_buf: Seq::empty(),
            rx_buf: Seq::empty(),
            peer_eof: false,
            shutdown_pending: 0,
            send_closed: false,
            credit_update: false,
        }
    }

    /// Bytes that the guest can still receive.
    pub open spec fn credit(self) -> u32 {
        let used = self.tx_cnt.wrapping_sub(self.peer_fwd_cnt);
        if self.peer_buf_alloc >= used {
            (self.peer_buf_alloc - used) as u32
        } else {
            0
        }
    }

    /// Data can pass.
    pub open spec fn open(self) -> bool {
        self.state == VsockState::Connected || self.state == VsockState::Closing
    }

    /// The host can still close it.
    pub open spec fn live(self) -> bool {
        self.state == VsockState::Connecting || self.state == VsockState::Connected
    }

    /// Closed, with nothing more to send.
    pub open spec fn closed(self) -> Link {
        Link { state: VsockState::Closed, tx_buf: Seq::empty(), ..self }
    }

    /// The host reads `n` of the bytes received.
    pub open spec fn consumed(self, n: nat) -> Link {
        let fwd_cnt = self.fwd_cnt.wrapping_add(n as u32);
        let seen = self.rx_cnt.wrapping_sub(self.last_fwd_sent);
        let free = if HOST_BUF_ALLOC >= seen {
            HOST_BUF_ALLOC - seen
        } else {
            0
        };
        Link {
            rx_buf: self.rx_buf.skip(n as int),
            fwd_cnt,
            credit_update: self.credit_update || (n > 0 && free < CREDIT_THRESHOLD && self.open()),
            ..self
        }
    }

    /// How many bytes go into the next packet with that much room.
    pub open spec fn portion(self, room: nat) -> nat {
        min_len(min_len(min_len(self.tx_buf.len(), self.credit() as nat), room), 65_536)
    }
}

impl VsockLink {
    fn new(state: VsockState) -> (r: Self)
        ensures
            r@ == Link::fresh(state),
    {
        VsockLink {
            state,
            peer_buf_alloc: 0,
            peer_fwd_cnt: 0,
            tx_cnt: 0,
            fwd_cnt: 0,
            last_fwd_sent: 0,
            rx_cnt: 0,
            tx_buf: VecDeque::new(),
            rx_buf: VecDeque::new(),
            peer_eof: false,
            shutdown_pending: 0,
            send_closed: false,
            credit_update: false,
        }
    }

    fn peer_credit(&self) -> (r: u32)
        ensures
            r == self@.credit(),
    {
        let used: u32 = self.tx_cnt.wrapping_sub(self.peer_fwd_cnt);
        if self.peer_buf_alloc >= used {
            self.peer_buf_alloc - used
        } else {
            0
        }
    }
}

pub struct VirtioVsock {
    pub guest_cid: u64,
    /// Ports of the host that listen.
    pub listening: Table<bool>,
    /// Connections, by their number.
    pub conns: Table<VsockLink>,
    /// Connections opened by the guest, by listening port, that the host has not
    /// accepted yet.
    pub backlog: Table<VecDeque<VsockConn>>,
    /// Control packets (without data) for the guest, in order.
    pub control: VecDeque<Hdr>,
    pub next_port: u32,
    pub reset_event: bool,
    /// Packets of the guest dropped (wrong CIDs, invalid lengths).
    pub dropped: u64,
}

/// What a [`VirtioVsock`] holds.
#[verifier::ext_equal]
pub struct Vsock {
    pub guest_cid: u64,
    pub listening: Seq<(u64, bool)>,
    pub conns: Seq<(u64, Link)>,
    pub backlog: Seq<(u64, Seq<VsockConn>)>,
    pub control: Seq<Hdr>,
    pub next_port: u32,
    pub reset_event: bool,
    pub dropped: u64,
}

impl View for VirtioVsock {
    type V = Vsock;

    open spec fn view(&self) -> Vsock {
        Vsock {
            guest_cid: self.guest_cid,
            listening: self.listening@,
            conns: self.conns@,
            backlog: self.backlog@,
            control: self.control@,
            next_port: self.next_port,
            reset_event: self.reset_event,
            dropped: self.dropped,
        }
    }
}

/// The list without `c`.
pub open spec fn dropped_from(s: Seq<VsockConn>, c: VsockConn) -> Seq<VsockConn>
    decreases s.len(),
{
    if s.len() == 0 {
        Seq::empty()
    } else if s.last() == c {
        dropped_from(s.drop_last(), c)
    } else {
        dropped_from(s.drop_last(), c).push(s.last())
    }
}

/// Port after `p`.
pub open spec fn port_after(p: u32) -> u32 {
    if p == 0xFFFF_FFFF {
        FIRST_HOST_PORT
    } else {
        (p + 1) as u32
    }
}

impl Vsock {
    pub open spec fn has_conn(self, c: VsockConn) -> bool {
        keyed(self.conns, c.key())
    }

    pub open spec fn link(self, c: VsockConn) -> Link {
        value(self.conns, c.key())
    }

    pub open spec fn with_link(self, c: VsockConn, l: Link) -> Vsock {
        Vsock { conns: put(self.conns, c.key(), l), ..self }
    }

    pub open spec fn queued(self, h: Hdr) -> Vsock {
        Vsock { control: self.control.push(h), ..self }
    }

    /// A header of the host for `c`, with the credit.
    pub open spec fn header(self, c: VsockConn, op: u16, len: u32) -> Hdr {
        Hdr {
            src_cid: HOST_CID,
            dst_cid: self.guest_cid,
            src_port: c.host_port,
            dst_port: c.guest_port,
            len,
            ty: TYPE_STREAM,
            op,
            flags: 0,
            buf_alloc: HOST_BUF_ALLOC,
            fwd_cnt: if self.has_conn(c) {
                self.link(c).fwd_cnt
            } else {
                0
            },
        }
    }

    /// RST in answer to a packet without a connection.
    pub open spec fn refusal(self, h: Hdr) -> Hdr {
        Hdr {
            src_cid: HOST_CID,
            dst_cid: self.guest_cid,
            src_port: h.dst_port,
            dst_port: h.src_port,
            len: 0,
            ty: TYPE_STREAM,
            op: OP_RST,
            flags: 0,
            buf_alloc: 0,
            fwd_cnt: 0,
        }
    }

    pub open spec fn refused(self, h: Hdr) -> Vsock {
        if h.op != OP_RST {
            self.queued(self.refusal(h))
        } else {
            self
        }
    }

    /// Immediate close with RST.
    pub open spec fn broken(self, c: VsockConn) -> Vsock {
        if self.has_conn(c) && self.link(c).state != VsockState::Closed {
            self.with_link(c, self.link(c).closed()).queued(self.header(c, OP_RST, 0))
        } else {
            self
        }
    }

    /// Immediate close of a list of connections.
    pub open spec fn broken_all(self, cs: Seq<VsockConn>) -> Vsock
        decreases cs.len(),
    {
        if cs.len() == 0 {
            self
        } else {
            self.broken_all(cs.drop_last()).broken(cs.last())
        }
    }

    /// Every connection is closed without a word to the guest.
    pub open spec fn lost(self) -> Vsock {
        Vsock {
            conns: self.conns.map_values(|e: (u64, Link)| (e.0, e.1.closed())),
            backlog: Seq::empty(),
            control: Seq::empty(),
            ..self
        }
    }

    /// The port `p` of the host neither listens nor has a connection.
    pub open spec fn port_free(self, p: u32) -> bool {
        &&& !keyed(self.listening, p as u64)
        &&& forall|i: int|
            0 <= i < self.conns.len() ==> (#[trigger] self.conns[i]).0 / 0x1_0000_0000 != p
    }

    /// `p` is the first free port from `next_port` on, or, if there is none, the
    /// first from [`FIRST_HOST_PORT`] on.
    pub open spec fn is_next_port(self, p: u32) -> bool {
        &&& self.port_free(p)
        &&& {
            ||| p >= self.next_port && forall|q: u32|
                self.next_port <= q < p ==> !self.port_free(q)
            ||| {
                &&& forall|q: u32| self.next_port <= q ==> !self.port_free(q)
                &&& p >= FIRST_HOST_PORT
                &&& forall|q: u32| FIRST_HOST_PORT <= q < p ==> !self.port_free(q)
            }
        }
    }

    /// The connection asked from port `p`.
    pub open spec fn connecting(self, p: u32, guest_port: u32) -> Vsock {
        let c = VsockConn { host_port: p, guest_port };
        let s = Vsock { next_port: port_after(p), ..self }.with_link(
            c,
            Link::fresh(VsockState::Connecting),
        );
        s.queued(s.header(c, OP_REQUEST, 0))
    }

    /// A connection of the guest to a listening port.
    pub open spec fn opened(self, h: Hdr) -> Vsock {
        let c = VsockConn { host_port: h.dst_port, guest_port: h.src_port };
        let s = self.with_link(
            c,
            Link {
                peer_buf_alloc: h.buf_alloc,
                peer_fwd_cnt: h.fwd_cnt,
                ..Link::fresh(VsockState::Connected)
            },
        );
        let waiting = if keyed(s.backlog, h.dst_port as u64) {
            value(s.backlog, h.dst_port as u64)
        } else {
            Seq::empty()
        };
        let s = Vsock { backlog: put(s.backlog, h.dst_port as u64, waiting.push(c)), ..s };
        s.queued(s.header(c, OP_RESPONSE, 0))
    }

    /// A packet on a connection that is not closed.
    pub open spec fn advanced(self, c: VsockConn, h: Hdr, payload: Seq<u8>) -> Vsock {
        let k = Link { peer_buf_alloc: h.buf_alloc, peer_fwd_cnt: h.fwd_cnt, ..self.link(c) };
        if h.op == OP_RST {
            self.with_link(c, Link { state: VsockState::Closed, ..k })
        } else if k.state == VsockState::Connecting && h.op == OP_RESPONSE {
            self.with_link(
                c,
                Link {
                    state: if k.shutdown_pending == SHUTDOWN_BOTH {
                        VsockState::Closing
                    } else {
                        VsockState::Connected
                    },
                    ..k
                },
            )
        } else if k.open() && h.op == OP_RW {
            self.with_link(
                c,
                Link {
                    rx_cnt: k.rx_cnt.wrapping_add(payload.len() as u32),
                    rx_buf: k.rx_buf + payload,
                    ..k
                },
            )
        } else if k.open() && h.op == OP_CREDIT_UPDATE {
            self.with_link(c, k)
        } else if k.open() && h.op == OP_CREDIT_REQUEST {
            self.with_link(c, Link { credit_update: true, ..k })
        } else if k.open() && h.op == OP_SHUTDOWN {
            let s = self.with_link(
                c,
                Link { peer_eof: k.peer_eof || h.flags & SHUTDOWN_SEND != 0, ..k },
            );
            // A full close of the guest, or the answer to ours: RST.
            if h.flags & SHUTDOWN_BOTH == SHUTDOWN_BOTH || k.state == VsockState::Closing {
                s.broken(c)
            } else {
                s
            }
        } else {
            self.with_link(c, k).broken(c)
        }
    }

    /// A packet from the guest.
    pub open spec fn received(self, h: Hdr, payload: Seq<u8>) -> Vsock {
        let c = VsockConn { host_port: h.dst_port, guest_port: h.src_port };
        if h.src_cid != self.guest_cid || h.dst_cid != HOST_CID {
            Vsock { dropped: self.dropped.wrapping_add(1), ..self }
        } else if h.ty != TYPE_STREAM {
            self.refused(h)
        } else if self.has_conn(c) && self.link(c).state != VsockState::Closed {
            self.advanced(c, h, payload)
        } else if h.op == OP_REQUEST && keyed(self.listening, h.dst_port as u64) {
            self.opened(h)
        } else {
            self.refused(h)
        }
    }

    /// The device with the link of the connection number `i` replaced.
    pub open spec fn relinked(self, i: int, l: Link) -> Vsock {
        Vsock { conns: self.conns.update(i, (self.conns[i].0, l)), ..self }
    }

    /// The next packet with data, a shutdown or a credit update of the
    /// connections from number `i` on, with a load of at most `room` bytes.
    pub open spec fn next_from(self, i: nat, room: nat) -> (Vsock, Option<(Hdr, Seq<u8>)>)
        decreases self.conns.len() - i,
    {
        if i >= self.conns.len() {
            (self, None)
        } else {
            let k = self.conns[i as int].1;
            let c = VsockConn::of(self.conns[i as int].0);
            if k.open() && k.tx_buf.len() > 0 && k.credit() > 0 && room > 0 {
                let n = k.portion(room);
                let k2 = Link {
                    tx_buf: k.tx_buf.skip(n as int),
                    tx_cnt: k.tx_cnt.wrapping_add(n as u32),
                    ..k
                };
                (
                    self.relinked(i as int, k2),
                    Some((self.outgoing(c, k, OP_RW, n as u32, 0), k.tx_buf.take(n as int))),
                )
            } else if k.open() && k.tx_buf.len() == 0 && k.shutdown_pending != 0 {
                (
                    self.relinked(i as int, Link { shutdown_pending: 0, ..k }),
                    Some(
                        (self.outgoing(c, k, OP_SHUTDOWN, 0, k.shutdown_pending), Seq::empty()),
                    ),
                )
            } else if k.credit_update && k.open() {
                (
                    self.relinked(i as int, Link { credit_update: false, ..k }),
                    Some((self.outgoing(c, k, OP_CREDIT_UPDATE, 0, 0), Seq::empty())),
                )
            } else {
                self.next_from(i + 1, room)
            }
        }
    }

    /// A header for the connection `c` whose link is `k`.
    pub open spec fn outgoing(self, c: VsockConn, k: Link, op: u16, len: u32, flags: u32) -> Hdr {
        Hdr {
            src_cid: HOST_CID,
            dst_cid: self.guest_cid,
            src_port: c.host_port,
            dst_port: c.guest_port,
            len,
            ty: TYPE_STREAM,
            op,
            flags,
            buf_alloc: HOST_BUF_ALLOC,
            fwd_cnt: k.fwd_cnt,
        }
    }

    /// The next packet for the guest: control packets first.
    pub open spec fn next_packet(self, room: nat) -> (Vsock, Option<(Hdr, Seq<u8>)>) {
        if self.control.len() > 0 {
            (Vsock { control: self.control.skip(1), ..self }, Some((self.control[0], Seq::empty())))
        } else {
            self.next_from(0, room)
        }
    }

    /// The packet with header `h` leaves: its connection remembers the credit it
    /// announced.
    pub open spec fn announced(self, h: Hdr) -> Vsock {
        let c = VsockConn { host_port: h.src_port, guest_port: h.dst_port };
        if self.has_conn(c) {
            self.with_link(c, Link { last_fwd_sent: h.fwd_cnt, ..self.link(c) })
        } else {
            self
        }
    }

    /// A chain of the transmit queue whose first bytes are `b`.
    pub open spec fn chain_taken(self, c: Chain, m: Mem, b: Seq<u8>) -> Result<Vsock, RamError> {
        let h = Hdr::of(b + zeros((44 - b.len()) as nat));
        if b.len() < 44 || h.len > MAX_PKT || total(c.readable) < 44 + h.len {
            Ok(Vsock { dropped: self.dropped.wrapping_add(1), ..self })
        } else {
            match gathered(m, c.readable, 44, h.len as int) {
                Err(e) => Err(e),
                Ok(payload) => Ok(self.received(h, payload)),
            }
        }
    }

    /// The chains of the transmit queue are packets of the guest.
    pub open spec fn took(self, q: Virtqueue, m: Mem, fuel: nat) -> (
        Vsock,
        Virtqueue,
        Mem,
        Result<(), QueueError>,
    )
        decreases fuel,
    {
        if fuel == 0 {
            (self, q, m, Ok(()))
        } else {
            let (q1, m1, next) = q.popped(m);
            match next {
                Err(e) => (self, q1, m1, Err(e)),
                Ok(None) => (self, q1, m1, Ok(())),
                Ok(Some(c)) => match gathered(m1, c.readable, 0, 44) {
                    Err(e) => (self, q1, m1, Err(QueueError::Ram(e))),
                    Ok(b) => match self.chain_taken(c, m1, b) {
                        Err(e) => (self, q1, m1, Err(QueueError::Ram(e))),
                        Ok(s2) => {
                            let (q3, m3, r3) = q1.returned(m1, c.head, 0);
                            match r3 {
                                Err(e) => (s2, q3, m3, Err(QueueError::Ram(e))),
                                Ok(_) => s2.took(q3, m3, (fuel - 1) as nat),
                            }
                        },
                    },
                },
            }
        }
    }

    /// Packets of the host go into the chains of the receive queue.
    pub open spec fn gave(self, q: Virtqueue, m: Mem, fuel: nat) -> (
        Vsock,
        Virtqueue,
        Mem,
        Result<(), QueueError>,
    )
        decreases fuel,
    {
        if fuel == 0 {
            (self, q, m, Ok(()))
        } else {
            match q.waiting(m) {
                Err(e) => (self, q, m, Err(e)),
                Ok(waiting) => if waiting == 0 {
                    (self, q, m, Ok(()))
                } else {
                    let (q1, m1, next) = q.popped(m);
                    match next {
                        Err(e) => (self, q1, m1, Err(e)),
                        Ok(None) => (self, q1, m1, Ok(())),
                        Ok(Some(c)) => if total(c.writable) < 44 {
                            (
                                self,
                                q1,
                                m1,
                                Err(
                                    QueueError::Malformed(
                                        "buffer vsock più corto dell'intestazione",
                                    ),
                                ),
                            )
                        } else {
                            let (s2, packet) = self.next_packet(
                                min_len((total(c.writable) - 44) as nat, 65_536),
                            );
                            match packet {
                                None => {
                                    let q2 = q1.rewound(1);
                                    let (m2, r2) = q2.event_published(m1);
                                    match r2 {
                                        Err(e) => (s2, q2, m2, Err(QueueError::Ram(e))),
                                        Ok(_) => (s2, q2, m2, Ok(())),
                                    }
                                },
                                Some((h, data)) => {
                                    let s3 = s2.announced(h);
                                    let (m2, r2) = scattered(m1, c.writable, 0, h.bytes() + data);
                                    match r2 {
                                        Err(e) => (s3, q1, m2, Err(QueueError::Ram(e))),
                                        Ok(n) => {
                                            let (q3, m3, r3) = q1.returned(m2, c.head, n as u32);
                                            match r3 {
                                                Err(e) => (s3, q3, m3, Err(QueueError::Ram(e))),
                                                Ok(_) => s3.gave(q3, m3, (fuel - 1) as nat),
                                            }
                                        },
                                    }
                                },
                            }
                        },
                    }
                },
            }
        }
    }

    /// The reset event goes into a chain of the event queue, if one is there.
    pub open spec fn signalled(self, q: Virtqueue, m: Mem) -> (
        Vsock,
        Virtqueue,
        Mem,
        Result<(), QueueError>,
    ) {
        if !self.reset_event {
            (self, q, m, Ok(()))
        } else {
            let (q1, m1, next) = q.popped(m);
            match next {
                Err(e) => (self, q1, m1, Err(e)),
                Ok(None) => (self, q1, m1, Ok(())),
                Ok(Some(c)) => {
                    let (m2, r2) = scattered(
                        m1,
                        c.writable,
                        0,
                        le32_bytes(EVENT_TRANSPORT_RESET),
                    );
                    match r2 {
                        Err(e) => (self, q1, m2, Err(QueueError::Ram(e))),
                        Ok(n) => {
                            let (q3, m3, r3) = q1.returned(m2, c.head, n as u32);
                            match r3 {
                                Err(e) => (self, q3, m3, Err(QueueError::Ram(e))),
                                Ok(_) => (Vsock { reset_event: false, ..self }, q3, m3, Ok(())),
                            }
                        },
                    }
                },
            }
        }
    }

    /// One service: events, then the guest's packets, then the host's.
    pub open spec fn served(self, w: Work) -> (Vsock, Work, Result<(), QueueError>) {
        let (s1, eq, m1, r1) = self.signalled(w.queues[2], w.mem);
        let w1 = Work { queues: w.queues.update(2, eq), mem: m1, ..w };
        if r1 is Err {
            (s1, w1, r1)
        } else {
            let (s2, tq, m2, r2) = s1.took(w1.queues[1], m1, SERVICE_LIMIT as nat);
            let w2 = Work { queues: w1.queues.update(1, tq), mem: m2, ..w1 };
            if r2 is Err {
                (s2, w2, r2)
            } else {
                let (s3, rq, m3, r3) = s2.gave(w2.queues[0], m2, SERVICE_LIMIT as nat);
                (s3, Work { queues: w2.queues.update(0, rq), mem: m3, ..w2 }, r3)
            }
        }
    }
}

impl VirtioVsock {
    /// Queues of 128.
    pub fn new(guest_cid: u64) -> (r: Self)
        ensures
            r@ == (Vsock {
                guest_cid,
                listening: Seq::empty(),
                conns: Seq::empty(),
                backlog: Seq::empty(),
                control: Seq::empty(),
                next_port: FIRST_HOST_PORT,
                reset_event: false,
                dropped: 0,
            }),
            vsock_in_order(r@),
    {
        VirtioVsock {
            guest_cid,
            listening: Table::new(),
            conns: Table::new(),
            backlog: Table::new(),
            control: VecDeque::new(),
            next_port: FIRST_HOST_PORT,
            reset_event: false,
            dropped: 0,
        }
    }

    pub fn guest_cid(&self) -> (r: u64)
        ensures
            r == self@.guest_cid,
    {
        self.guest_cid
    }

    /// Packets of the guest dropped.
    pub fn dropped(&self) -> (r: u64)
        ensures
            r == self@.dropped,
    {
        self.dropped
    }

    /// The host listens on the port `port`: the guest's REQUESTs to it are
    /// accepted. A port that listens already, or that a connection uses, is
    /// refused.
    pub fn listen(&mut self, port: u32) -> (r: Result<(), VsockError>)
        ensures
            if !old(self)@.port_free(port) {
                r == Err::<(), VsockError>(VsockError::PortInUse) && final(self)@ == old(self)@
            } else {
                &&& r == Ok::<(), VsockError>(())
                &&& final(self)@ == (Vsock {
                    listening: put(old(self)@.listening, port as u64, true),
                    ..old(self)@
                })
            },
    {
        if !self.host_port_free(port) {
            return Err(VsockError::PortInUse);
        }
        self.listening.insert(port as u64, true);
        Ok(())
    }

    /// Stops listening; the connections that wait for `accept` are closed with
    /// RST.
    pub fn unlisten(&mut self, port: u32)
        ensures
            final(self)@ == (Vsock {
                listening: without(old(self)@.listening, port as u64),
                backlog: without(old(self)@.backlog, port as u64),
                ..old(self)@
            }).broken_all(
                if keyed(old(self)@.backlog, port as u64) {
                    value(old(self)@.backlog, port as u64)
                } else {
                    Seq::empty()
                },
            ),
    {
        let _ = self.listening.remove(port as u64);
        match self.backlog.remove(port as u64) {
            None => {},
            Some(waiting) => {
                let ghost before = self@;
                let mut i: usize = 0;
                assert(waiting@.take(0) =~= Seq::<VsockConn>::empty());
                while i < waiting.len()
                    invariant
                        i <= waiting@.len(),
                        self@ == before.broken_all(waiting@.take(i as int)),
                    decreases waiting@.len() - i,
                {
                    assert(waiting@.take(i + 1).drop_last() =~= waiting@.take(i as int));
                    self.reset(waiting[i]);
                    i += 1;
                }
                assert(waiting@.take(i as int) =~= waiting@);
            },
        }
    }

    /// Next connection of the guest to the port `port`, if there is one.
    pub fn accept(&mut self, port: u32) -> (r: Option<VsockConn>)
        ensures
            ({
                let s = old(self)@;
                let waiting = value(s.backlog, port as u64);
                if keyed(s.backlog, port as u64) && waiting.len() > 0 {
                    &&& r == Some(waiting[0])
                    &&& final(self)@ == (Vsock {
                        backlog: put(s.backlog, port as u64, waiting.skip(1)),
                        ..s
                    })
                } else {
                    r is None && final(self)@ == s
                }
            }),
    {
        match self.backlog.find(port as u64) {
            None => None,
            Some(i) => {
                let ghost before = self@;
                let ghost waiting = value(before.backlog, port as u64);
                let r = self.backlog.slot(i).pop_front();
                proof {
                    if waiting.len() > 0 {
                        assert(self@ =~= Vsock {
                            backlog: put(before.backlog, port as u64, waiting.skip(1)),
                            ..before
                        });
                    } else {
                        assert(self@.backlog =~= before.backlog);
                    }
                }
                r
            },
        }
    }

    fn host_port_free(&self, p: u32) -> (r: bool)
        ensures
            r == self@.port_free(p),
    {
        if self.listening.find(p as u64).is_some() {
            return false;
        }
        let mut i: usize = 0;
        while i < self.conns.entries.len()
            invariant
                i <= self.conns.entries@.len(),
                !keyed(self@.listening, p as u64),
                forall|k: int| 0 <= k < i ==> (#[trigger] self@.conns[k]).0 / 0x1_0000_0000 != p,
            decreases self.conns.entries@.len() - i,
        {
            assert(self@.conns[i as int].0 == self.conns.entries@[i as int].0);
            if self.conns.entries[i].0 / 0x1_0000_0000 == p as u64 {
                return false;
            }
            i += 1;
        }
        true
    }

    /// The next free port of the host.
    fn find_port(&self) -> (p: u32)
        requires
            exists|q: u32| FIRST_HOST_PORT <= q && #[trigger] self@.port_free(q),
        ensures
            self@.is_next_port(p),
    {
        let mut p: u32 = self.next_port;
        let mut again: bool = false;
        while !self.host_port_free(p)
            invariant
                exists|q: u32| FIRST_HOST_PORT <= q && #[trigger] self@.port_free(q),
                !again ==> p >= self.next_port && forall|q: u32|
                    self.next_port <= q < p ==> !self@.port_free(q),
                again ==> p >= FIRST_HOST_PORT && (forall|q: u32|
                    self.next_port <= q ==> !self@.port_free(q)) && (forall|q: u32|
                    FIRST_HOST_PORT <= q < p ==> !self@.port_free(q)),
            decreases (if again { 0int } else { 1int }), 0xFFFF_FFFF - p,
        {
            if p == 0xFFFF_FFFF {
                p = FIRST_HOST_PORT;
                again = true;
            } else {
                p += 1;
            }
        }
        p
    }

    /// Asks for a connection to the port `guest_port` of the guest, from a new
    /// local port. It leaves at the next service; the state tells whether the
    /// guest has accepted it. Data sent before that leaves after the RESPONSE.
    pub fn connect(&mut self, guest_port: u32) -> (c: VsockConn)
        requires
            exists|q: u32| FIRST_HOST_PORT <= q && #[trigger] old(self)@.port_free(q),
        ensures
            old(self)@.is_next_port(c.host_port),
            c.guest_port == guest_port,
            final(self)@ == old(self)@.connecting(c.host_port, guest_port),
            vsock_in_order(old(self)@) ==> vsock_in_order(final(self)@) && c.host_port
                >= FIRST_HOST_PORT,
    {
        let p: u32 = self.find_port();
        proof {
            if vsock_in_order(self@) {
                law_host_keeps_order(
                    self@,
                    VsockConn { host_port: p, guest_port },
                    p,
                    Link::fresh(VsockState::Connecting),
                    Seq::empty(),
                );
            }
        }
        self.next_port = if p == 0xFFFF_FFFF {
            FIRST_HOST_PORT
        } else {
            p + 1
        };
        let c = VsockConn { host_port: p, guest_port };
        self.conns.insert(c.to_key(), VsockLink::new(VsockState::Connecting));
        let h: Hdr = self.hdr(c, OP_REQUEST, 0);
        self.control.push_back(h);
        c
    }

    pub fn state(&self, c: VsockConn) -> (r: Option<VsockState>)
        ensures
            r == (if self@.has_conn(c) {
                Some(self@.link(c).state)
            } else {
                None
            }),
    {
        match self.conns.get(c.to_key()) {
            Some(k) => Some(k.state),
            None => None,
        }
    }

    /// Known connections (also closed ones, until `release` is called).
    pub fn connections(&self) -> (r: Vec<VsockConn>)
        ensures
            r@ == self@.conns.map_values(|e: (u64, Link)| VsockConn::of(e.0)),
    {
        let mut r: Vec<VsockConn> = Vec::new();
        let mut i: usize = 0;
        while i < self.conns.entries.len()
            invariant
                i <= self.conns.entries@.len(),
                r@ =~= self@.conns.map_values(|e: (u64, Link)| VsockConn::of(e.0)).take(i as int),
            decreases self.conns.entries@.len() - i,
        {
            r.push(VsockConn::from_key(self.conns.entries[i].0));
            i += 1;
        }
        r
    }

    /// Queues `data` for the guest; it leaves when the guest has credit.
    pub fn send(&mut self, c: VsockConn, data: &[u8]) -> (r: Result<(), VsockError>)
        ensures
            ({
                let s = old(self)@;
                let k = s.link(c);
                if !s.has_conn(c) {
                    r == Err::<(), VsockError>(VsockError::NotFound) && final(self)@ == s
                } else if k.send_closed || !k.live() {
                    r == Err::<(), VsockError>(VsockError::Closed) && final(self)@ == s
                } else {
                    &&& r == Ok::<(), VsockError>(())
                    &&& final(self)@ == s.with_link(c, Link { tx_buf: k.tx_buf + data@, ..k })
                }
            }),
    {
        match self.conns.find(c.to_key()) {
            None => Err(VsockError::NotFound),
            Some(i) => {
                let k: &VsockLink = &self.conns.entries[i].1;
                assert(k@ == self@.conns[i as int].1);
                if k.send_closed || (k.state != VsockState::Connecting && k.state
                    != VsockState::Connected) {
                    return Err(VsockError::Closed);
                }
                queue_bytes(&mut self.conns.slot(i).tx_buf, data);
                Ok(())
            },
        }
    }

    /// Bytes of the host not sent to the guest yet.
    pub fn unsent(&self, c: VsockConn) -> (r: usize)
        ensures
            r == (if self@.has_conn(c) {
                self@.link(c).tx_buf.len()
            } else {
                0
            }),
    {
        match self.conns.get(c.to_key()) {
            Some(k) => k.tx_buf.len(),
            None => 0,
        }
    }

    /// Bytes received from the guest and not read yet.
    pub fn available(&self, c: VsockConn) -> (r: usize)
        ensures
            r == (if self@.has_conn(c) {
                self@.link(c).rx_buf.len()
            } else {
                0
            }),
    {
        match self.conns.get(c.to_key()) {
            Some(k) => k.rx_buf.len(),
            None => 0,
        }
    }

    /// Reads up to `max` bytes received from the guest. It frees credit: if the
    /// guest sees little of it, a CREDIT_UPDATE leaves.
    pub fn recv(&mut self, c: VsockConn, max: usize) -> (r: Vec<u8>)
        ensures
            ({
                let s = old(self)@;
                if s.has_conn(c) {
                    let n = min_len(max as nat, s.link(c).rx_buf.len());
                    &&& r@ == s.link(c).rx_buf.take(n as int)
                    &&& final(self)@ == s.with_link(c, s.link(c).consumed(n))
                } else {
                    r@.len() == 0 && final(self)@ == s
                }
            }),
    {
        match self.conns.find(c.to_key()) {
            None => Vec::new(),
            Some(i) => {
                let k: &mut VsockLink = self.conns.slot(i);
                let n: usize = if max <= k.rx_buf.len() {
                    max
                } else {
                    k.rx_buf.len()
                };
                let out: Vec<u8> = take_front(&mut k.rx_buf, n);
                k.fwd_cnt = k.fwd_cnt.wrapping_add(n as u32);
                let seen: u32 = k.rx_cnt.wrapping_sub(k.last_fwd_sent);
                let free: u32 = if HOST_BUF_ALLOC >= seen {
                    HOST_BUF_ALLOC - seen
                } else {
                    0
                };
                let open: bool = k.state == VsockState::Connected || k.state == VsockState::Closing;
                if n > 0 && free < CREDIT_THRESHOLD && open {
                    k.credit_update = true;
                }
                out
            },
        }
    }

    /// The guest has closed its transmitting side (or the connection) and there
    /// is no more data to read.
    pub fn eof(&self, c: VsockConn) -> (r: bool)
        ensures
            r == (self@.has_conn(c) ==> self@.link(c).rx_buf.len() == 0 && (self@.link(c).peer_eof
                || self@.link(c).state == VsockState::Closed)),
    {
        match self.conns.get(c.to_key()) {
            Some(k) => k.rx_buf.len() == 0 && (k.peer_eof || k.state == VsockState::Closed),
            None => true,
        }
    }

    /// Closes the transmitting side of the host: after the last data SHUTDOWN
    /// with SEND leaves, the guest reads the end of the stream and can still send
    /// data. It can be called before the guest accepts the connection.
    pub fn shutdown_send(&mut self, c: VsockConn)
        ensures
            ({
                let s = old(self)@;
                let k = s.link(c);
                final(self)@ == (if s.has_conn(c) && k.live() && !k.send_closed {
                    s.with_link(
                        c,
                        Link { send_closed: true, shutdown_pending: SHUTDOWN_SEND, ..k },
                    )
                } else {
                    s
                })
            }),
    {
        match self.conns.find(c.to_key()) {
            None => {},
            Some(i) => {
                let k: &VsockLink = &self.conns.entries[i].1;
                assert(k@ == self@.conns[i as int].1);
                if (k.state == VsockState::Connecting || k.state == VsockState::Connected)
                    && !k.send_closed {
                    let k: &mut VsockLink = self.conns.slot(i);
                    k.send_closed = true;
                    k.shutdown_pending = SHUTDOWN_SEND;
                }
            },
        }
    }

    /// Orderly close by the host: SHUTDOWN (reception and transmission) after the
    /// last data, then the guest's RST is awaited. On a connection not accepted
    /// yet, the close leaves after the RESPONSE.
    pub fn close(&mut self, c: VsockConn)
        ensures
            ({
                let s = old(self)@;
                let k = s.link(c);
                final(self)@ == (if s.has_conn(c) && k.live() {
                    s.with_link(
                        c,
                        Link {
                            send_closed: true,
                            shutdown_pending: SHUTDOWN_BOTH,
                            state: if k.state == VsockState::Connected {
                                VsockState::Closing
                            } else {
                                k.state
                            },
                            ..k
                        },
                    )
                } else {
                    s
                })
            }),
    {
        match self.conns.find(c.to_key()) {
            None => {},
            Some(i) => {
                let k: &VsockLink = &self.conns.entries[i].1;
                assert(k@ == self@.conns[i as int].1);
                if k.state == VsockState::Connecting || k.state == VsockState::Connected {
                    let k: &mut VsockLink = self.conns.slot(i);
                    k.send_closed = true;
                    k.shutdown_pending = SHUTDOWN_BOTH;
                    if k.state == VsockState::Connected {
                        k.state = VsockState::Closing;
                    }
                }
            },
        }
    }

    /// Immediate close with RST.
    pub fn reset(&mut self, c: VsockConn)
        ensures
            final(self)@ == old(self)@.broken(c),
    {
        match self.conns.find(c.to_key()) {
            None => {},
            Some(i) => {
                let k: &VsockLink = &self.conns.entries[i].1;
                assert(k@ == self@.conns[i as int].1);
                if k.state != VsockState::Closed {
                    let h: Hdr = self.hdr(c, OP_RST, 0);
                    let k: &mut VsockLink = self.conns.slot(i);
                    k.state = VsockState::Closed;
                    k.tx_buf.clear();
                    self.control.push_back(h);
                    assert(self@ =~= old(self)@.broken(c));
                }
            },
        }
    }

    /// Forgets a closed connection (or closes it with RST).
    pub fn release(&mut self, c: VsockConn)
        ensures
            ({
                let s = old(self)@.broken(c);
                final(self)@ == (Vsock {
                    conns: without(s.conns, c.key()),
                    backlog: s.backlog.map_values(
                        |e: (u64, Seq<VsockConn>)| (e.0, dropped_from(e.1, c)),
                    ),
                    ..s
                })
            }),
    {
        self.reset(c);
        let _ = self.conns.remove(c.to_key());
        let ghost before = self@;
        let ghost goal = before.backlog.map_values(
            |e: (u64, Seq<VsockConn>)| (e.0, dropped_from(e.1, c)),
        );
        let mut i: usize = 0;
        while i < self.backlog.entries.len()
            invariant
                i <= self.backlog.entries@.len() == before.backlog.len(),
                goal == before.backlog.map_values(
                    |e: (u64, Seq<VsockConn>)| (e.0, dropped_from(e.1, c)),
                ),
                self@ == (Vsock { backlog: self@.backlog, ..before }),
                forall|k: int| 0 <= k < i ==> #[trigger] self@.backlog[k] == goal[k],
                forall|k: int|
                    i <= k < before.backlog.len() ==> #[trigger] self@.backlog[k] == before.backlog[k],
            decreases self.backlog.entries@.len() - i,
        {
            let kept: VecDeque<VsockConn> = dropping(&self.backlog.entries[i].1, c);
            assert(self@.backlog[i as int].1 == self.backlog.entries@[i as int].1@);
            *self.backlog.slot(i) = kept;
            i += 1;
        }
        assert(self@.backlog =~= goal);
    }

    /// Sends the guest TRANSPORT_RESET and closes every connection (the guest
    /// takes them for lost, without RST).
    pub fn transport_reset(&mut self)
        ensures
            final(self)@ == (Vsock { reset_event: true, ..old(self)@ }).lost(),
    {
        self.reset_event = true;
        self.drop_all();
    }

    fn drop_all(&mut self)
        ensures
            final(self)@ == old(self)@.lost(),
    {
        let ghost before = self@;
        let mut i: usize = 0;
        while i < self.conns.entries.len()
            invariant
                i <= self.conns.entries@.len() == before.conns.len(),
                self@ == (Vsock { conns: self@.conns, ..before }),
                forall|k: int|
                    0 <= k < i ==> #[trigger] self@.conns[k] == (
                        before.conns[k].0,
                        before.conns[k].1.closed(),
                    ),
                forall|k: int| i <= k < before.conns.len() ==> #[trigger] self@.conns[k] == before.conns[k],
            decreases self.conns.entries@.len() - i,
        {
            assert(self@.conns[i as int] == before.conns[i as int]);
            let k: &mut VsockLink = self.conns.slot(i);
            k.state = VsockState::Closed;
            k.tx_buf.clear();
            assert(k@ =~= before.conns[i as int].1.closed());
            i += 1;
        }
        self.backlog = Table::new();
        self.control.clear();
        assert(self@ =~= before.lost());
    }

    fn hdr(&self, c: VsockConn, op: u16, len: u32) -> (r: Hdr)
        ensures
            r == self@.header(c, op, len),
    {
        let fwd_cnt: u32 = match self.conns.get(c.to_key()) {
            Some(k) => k.fwd_cnt,
            None => 0,
        };
        Hdr {
            src_cid: HOST_CID,
            dst_cid: self.guest_cid,
            src_port: c.host_port,
            dst_port: c.guest_port,
            len,
            ty: TYPE_STREAM,
            op,
            flags: 0,
            buf_alloc: HOST_BUF_ALLOC,
            fwd_cnt,
        }
    }

    /// RST in answer to a packet without a connection (ports swapped).
    fn rst_reply(&mut self, h: Hdr)
        ensures
            final(self)@ == old(self)@.refused(h),
    {
        if h.op != OP_RST {
            let guest_cid: u64 = self.guest_cid;
            self.control.push_back(
                Hdr {
                    src_cid: HOST_CID,
                    dst_cid: guest_cid,
                    src_port: h.dst_port,
                    dst_port: h.src_port,
                    len: 0,
                    ty: TYPE_STREAM,
                    op: OP_RST,
                    flags: 0,
                    buf_alloc: 0,
                    fwd_cnt: 0,
                },
            );
        }
    }

    /// A connection of the guest to a listening port.
    fn open(&mut self, h: Hdr)
        ensures
            final(self)@ == old(self)@.opened(h),
    {
        let c = VsockConn { host_port: h.dst_port, guest_port: h.src_port };
        let mut k = VsockLink::new(VsockState::Connected);
        k.peer_buf_alloc = h.buf_alloc;
        k.peer_fwd_cnt = h.fwd_cnt;
        self.conns.insert(c.to_key(), k);
        match self.backlog.find(h.dst_port as u64) {
            Some(i) => {
                self.backlog.slot(i).push_back(c);
            },
            None => {
                let mut waiting: VecDeque<VsockConn> = VecDeque::new();
                waiting.push_back(c);
                self.backlog.insert(h.dst_port as u64, waiting);
            },
        }
        let r: Hdr = self.hdr(c, OP_RESPONSE, 0);
        self.control.push_back(r);
    }

    /// A packet on the connection `c`, at `i`, which is not closed.
    fn advance(&mut self, c: VsockConn, i: usize, h: Hdr, payload: &Vec<u8>)
        requires
            old(self)@.has_conn(c),
            i == rank(old(self)@.conns, c.key()),
            i < old(self).conns.entries@.len(),
        ensures
            final(self)@ == old(self)@.advanced(c, h, payload@),
    {
        let ghost before = self@;
        let k: &mut VsockLink = self.conns.slot(i);
        k.peer_buf_alloc = h.buf_alloc;
        k.peer_fwd_cnt = h.fwd_cnt;
        let state: VsockState = k.state;
        let open: bool = state == VsockState::Connected || state == VsockState::Closing;
        if h.op == OP_RST {
            k.state = VsockState::Closed;
            return;
        }
        if state == VsockState::Connecting && h.op == OP_RESPONSE {
            k.state = if k.shutdown_pending == SHUTDOWN_BOTH {
                VsockState::Closing
            } else {
                VsockState::Connected
            };
            return;
        }
        if open && h.op == OP_RW {
            k.rx_cnt = k.rx_cnt.wrapping_add(payload.len() as u32);
            queue_bytes(&mut k.rx_buf, payload.as_slice());
            return;
        }
        if open && h.op == OP_CREDIT_UPDATE {
            return;
        }
        if open && h.op == OP_CREDIT_REQUEST {
            k.credit_update = true;
            return;
        }
        if open && h.op == OP_SHUTDOWN {
            if h.flags & SHUTDOWN_SEND != 0 {
                k.peer_eof = true;
            }
            if h.flags & SHUTDOWN_BOTH == SHUTDOWN_BOTH || state == VsockState::Closing {
                self.reset(c);
            }
            return;
        }
        self.reset(c);
    }

    /// A packet from the guest.
    fn receive(&mut self, h: Hdr, payload: &Vec<u8>)
        ensures
            final(self)@ == old(self)@.received(h, payload@),
    {
        if h.src_cid != self.guest_cid || h.dst_cid != HOST_CID {
            self.dropped = self.dropped.wrapping_add(1);
            return;
        }
        if h.ty != TYPE_STREAM {
            self.rst_reply(h);
            return;
        }
        let c = VsockConn { host_port: h.dst_port, guest_port: h.src_port };
        match self.conns.find(c.to_key()) {
            Some(i) => {
                assert(self@.conns[i as int].1 == self.conns.entries@[i as int].1@);
                if self.conns.entries[i].1.state != VsockState::Closed {
                    self.advance(c, i, h, payload);
                    return;
                }
            },
            None => {},
        }
        // Without an open connection: only a REQUEST to a listening port makes one.
        if h.op == OP_REQUEST && self.listening.find(h.dst_port as u64).is_some() {
            self.open(h);
        } else {
            self.rst_reply(h);
        }
    }

    /// The next packet with data, a shutdown or a credit update.
    fn next_data(&mut self, room: usize) -> (r: Option<(Hdr, Vec<u8>)>)
        ensures
            final(self)@ == old(self)@.next_from(0, room as nat).0,
            match r {
                Some((h, d)) => old(self)@.next_from(0, room as nat).1 == Some((h, d@)),
                None => old(self)@.next_from(0, room as nat).1 is None,
            },
    {
        let guest_cid: u64 = self.guest_cid;
        let mut i: usize = 0;
        while i < self.conns.entries.len()
            invariant
                *self == *old(self),
                guest_cid == self@.guest_cid,
                i <= self.conns.entries@.len(),
                old(self)@.next_from(0, room as nat) == self@.next_from(i as nat, room as nat),
            decreases self.conns.entries@.len() - i,
        {
            let c: VsockConn = VsockConn::from_key(self.conns.entries[i].0);
            let k: &VsockLink = &self.conns.entries[i].1;
            assert(self@.conns[i as int] == (self.conns.entries@[i as int].0, k@));
            let open: bool = k.state == VsockState::Connected || k.state == VsockState::Closing;
            let credit: u32 = k.peer_credit();
            let mut h = Hdr {
                src_cid: HOST_CID,
                dst_cid: guest_cid,
                src_port: c.host_port,
                dst_port: c.guest_port,
                len: 0,
                ty: TYPE_STREAM,
                op: 0,
                flags: 0,
                buf_alloc: HOST_BUF_ALLOC,
                fwd_cnt: k.fwd_cnt,
            };
            if open && k.tx_buf.len() > 0 && credit > 0 && room > 0 {
                let mut n: usize = if k.tx_buf.len() <= credit as usize {
                    k.tx_buf.len()
                } else {
                    credit as usize
                };
                if n > room {
                    n = room;
                }
                if n > MAX_PKT {
                    n = MAX_PKT;
                }
                assert(n == k@.portion(room as nat));
                let k: &mut VsockLink = self.conns.slot(i);
                let data: Vec<u8> = take_front(&mut k.tx_buf, n);
                k.tx_cnt = k.tx_cnt.wrapping_add(n as u32);
                h.op = OP_RW;
                h.len = n as u32;
                return Some((h, data));
            }
            if open && k.tx_buf.len() == 0 && k.shutdown_pending != 0 {
                let k: &mut VsockLink = self.conns.slot(i);
                h.op = OP_SHUTDOWN;
                h.flags = k.shutdown_pending;
                k.shutdown_pending = 0;
                return Some((h, Vec::new()));
            }
            if k.credit_update && open {
                let k: &mut VsockLink = self.conns.slot(i);
                k.credit_update = false;
                h.op = OP_CREDIT_UPDATE;
                return Some((h, Vec::new()));
            }
            i += 1;
        }
        None
    }

    /// The next packet for the guest.
    fn next_packet(&mut self, room: usize) -> (r: Option<(Hdr, Vec<u8>)>)
        ensures
            final(self)@ == old(self)@.next_packet(room as nat).0,
            match r {
                Some((h, d)) => old(self)@.next_packet(room as nat).1 == Some((h, d@)),
                None => old(self)@.next_packet(room as nat).1 is None,
            },
    {
        if self.control.len() > 0 {
            let h: Hdr = self.control[0];
            let _ = self.control.pop_front();
            assert(self@.control =~= old(self)@.control.skip(1));
            return Some((h, Vec::new()));
        }
        self.next_data(room)
    }

    fn announce(&mut self, h: Hdr)
        ensures
            final(self)@ == old(self)@.announced(h),
    {
        let c = VsockConn { host_port: h.src_port, guest_port: h.dst_port };
        match self.conns.find(c.to_key()) {
            Some(i) => {
                let k: &mut VsockLink = self.conns.slot(i);
                k.last_fwd_sent = h.fwd_cnt;
            },
            None => {},
        }
    }

    /// A chain of the transmit queue.
    fn take_chain<R: GuestRam>(&mut self, c: &DescChain, ram: &R, b: Vec<u8>) -> (r: Result<
        (),
        RamError,
    >)
        requires
            c.wf(),
            b@.len() <= 44,
        ensures
            match r {
                Ok(_) => old(self)@.chain_taken(c@, ram.mem(), b@) == Ok::<Vsock, RamError>(
                    final(self)@,
                ),
                Err(e) => old(self)@.chain_taken(c@, ram.mem(), b@) == Err::<Vsock, RamError>(e)
                    && final(self)@ == old(self)@,
            },
    {
        let n: usize = b.len();
        let mut hb: Vec<u8> = b;
        push_zeros(&mut hb, 44 - n);
        let h: Hdr = Hdr::read(hb.as_slice());
        if n < HDR_LEN || h.len as usize > MAX_PKT || c.readable_len() < 44 + h.len as u64 {
            self.dropped = self.dropped.wrapping_add(1);
            return Ok(());
        }
        match c.read_part(ram, 44, h.len as u64) {
            Err(e) => Err(e),
            Ok(payload) => {
                self.receive(h, &payload);
                Ok(())
            },
        }
    }

    fn transmit_queue<R: GuestRam>(&mut self, q: &mut Virtqueue, ram: &mut R) -> (r: Result<
        (),
        QueueError,
    >)
        requires
            old(q).wf(),
        ensures
            final(q).wf(),
            (final(self)@, *final(q), final(ram).mem(), r) == old(self)@.took(
                *old(q),
                old(ram).mem(),
                SERVICE_LIMIT as nat,
            ),
    {
        let mut fuel: u64 = SERVICE_LIMIT;
        while fuel > 0
            invariant
                q.wf(),
                old(self)@.took(*old(q), old(ram).mem(), SERVICE_LIMIT as nat) == self@.took(
                    *q,
                    ram.mem(),
                    fuel as nat,
                ),
            decreases fuel,
        {
            match q.pop(ram) {
                Err(e) => {
                    return Err(e);
                },
                Ok(None) => {
                    return Ok(());
                },
                Ok(Some(c)) => {
                    let b: Vec<u8> = match c.read_part(ram, 0, 44) {
                        Ok(b) => b,
                        Err(e) => {
                            return Err(QueueError::Ram(e));
                        },
                    };
                    proof {
                        lemma_gathered_len(ram.mem(), c@.readable, 0, 44);
                    }
                    match self.take_chain(&c, ram, b) {
                        Ok(_) => {},
                        Err(e) => {
                            return Err(QueueError::Ram(e));
                        },
                    }
                    match q.push_used(ram, c.head, 0) {
                        Ok(_) => {},
                        Err(e) => {
                            return Err(QueueError::Ram(e));
                        },
                    }
                },
            }
            fuel = fuel - 1;
        }
        Ok(())
    }

    fn receive_queue<R: GuestRam>(&mut self, q: &mut Virtqueue, ram: &mut R) -> (r: Result<
        (),
        QueueError,
    >)
        requires
            old(q).wf(),
        ensures
            final(q).wf(),
            (final(self)@, *final(q), final(ram).mem(), r) == old(self)@.gave(
                *old(q),
                old(ram).mem(),
                SERVICE_LIMIT as nat,
            ),
    {
        let mut fuel: u64 = SERVICE_LIMIT;
        while fuel > 0
            invariant
                q.wf(),
                old(self)@.gave(*old(q), old(ram).mem(), SERVICE_LIMIT as nat) == self@.gave(
                    *q,
                    ram.mem(),
                    fuel as nat,
                ),
            decreases fuel,
        {
            match q.available(ram) {
                Err(e) => {
                    return Err(e);
                },
                Ok(n) => {
                    if n == 0 {
                        return Ok(());
                    }
                },
            }
            match q.pop(ram) {
                Err(e) => {
                    return Err(e);
                },
                Ok(None) => {
                    return Ok(());
                },
                Ok(Some(c)) => {
                    let len: u64 = c.writable_len();
                    if len < HDR_LEN as u64 {
                        return Err(
                            QueueError::Malformed("buffer vsock più corto dell'intestazione"),
                        );
                    }
                    let room: usize = if len - 44 <= MAX_PKT as u64 {
                        (len - 44) as usize
                    } else {
                        MAX_PKT
                    };
                    match self.next_packet(room) {
                        None => {
                            return match q.rewind(ram, 1) {
                                Ok(_) => Ok(()),
                                Err(e) => Err(QueueError::Ram(e)),
                            };
                        },
                        Some((h, data)) => {
                            self.announce(h);
                            let mut buf: Vec<u8> = h.to_bytes();
                            push_bytes(&mut buf, data.as_slice());
                            let n: usize = match c.write(ram, 0, buf.as_slice()) {
                                Ok(n) => n,
                                Err(e) => {
                                    return Err(QueueError::Ram(e));
                                },
                            };
                            match q.push_used(ram, c.head, n as u32) {
                                Ok(_) => {},
                                Err(e) => {
                                    return Err(QueueError::Ram(e));
                                },
                            }
                        },
                    }
                },
            }
            fuel = fuel - 1;
        }
        Ok(())
    }

    fn event_queue<R: GuestRam>(&mut self, q: &mut Virtqueue, ram: &mut R) -> (r: Result<
        (),
        QueueError,
    >)
        requires
            old(q).wf(),
        ensures
            final(q).wf(),
            (final(self)@, *final(q), final(ram).mem(), r) == old(self)@.signalled(
                *old(q),
                old(ram).mem(),
            ),
    {
        if !self.reset_event {
            return Ok(());
        }
        match q.pop(ram) {
            Err(e) => Err(e),
            Ok(None) => Ok(()),
            Ok(Some(c)) => {
                let mut b: Vec<u8> = Vec::new();
                push_le32(&mut b, EVENT_TRANSPORT_RESET);
                assert(b@ =~= le32_bytes(EVENT_TRANSPORT_RESET));
                let n: usize = match c.write(ram, 0, b.as_slice()) {
                    Ok(n) => n,
                    Err(e) => {
                        return Err(QueueError::Ram(e));
                    },
                };
                match q.push_used(ram, c.head, n as u32) {
                    Ok(_) => {},
                    Err(e) => {
                        return Err(QueueError::Ram(e));
                    },
                }
                self.reset_event = false;
                Ok(())
            },
        }
    }
}

/// A copy of the queue without `c`.
fn dropping(q: &VecDeque<VsockConn>, c: VsockConn) -> (r: VecDeque<VsockConn>)
    ensures
        r@ == dropped_from(q@, c),
{
    let mut r: VecDeque<VsockConn> = VecDeque::new();
    let mut i: usize = 0;
    assert(q@.take(0) =~= Seq::<VsockConn>::empty());
    while i < q.len()
        invariant
            i <= q@.len(),
            r@ == dropped_from(q@.take(i as int), c),
        decreases q@.len() - i,
    {
        assert(q@.take(i + 1).drop_last() =~= q@.take(i as int));
        if q[i] != c {
            r.push_back(q[i]);
        }
        i += 1;
    }
    assert(q@.take(i as int) =~= q@);
    r
}

impl VirtioDevice for VirtioVsock {
    open spec fn dev_inv(&self) -> bool {
        true
    }

    open spec fn id(&self) -> u32 {
        ID_VSOCK
    }

    open spec fn offers(&self) -> u64 {
        F_STREAM
    }

    open spec fn sizes(&self) -> Seq<u16> {
        seq![128u16, 128u16, 128u16]
    }

    open spec fn config(&self) -> Seq<u8> {
        le64_bytes(self@.guest_cid)
    }

    open spec fn configured(pre: Self, offset: u64, data: Seq<u8>, post: Self) -> bool {
        post == pre
    }

    open spec fn agreed(pre: Self, features: u64, post: Self, ok: bool) -> bool {
        post == pre && ok
    }

    open spec fn cleared(pre: Self, post: Self) -> bool {
        post@ == (Vsock { reset_event: false, ..pre@.lost() })
    }

    open spec fn served(
        pre: Self,
        before: Work,
        post: Self,
        after: Work,
        r: Result<(), QueueError>,
    ) -> bool {
        (post@, after, r) == pre@.served(before)
    }

    fn device_id(&self) -> (r: u32) {
        ID_VSOCK
    }

    fn features(&self) -> (r: u64) {
        F_STREAM
    }

    fn queue_max_sizes(&self) -> (r: Vec<u16>) {
        vec![128u16, 128u16, 128u16]
    }

    fn read_config(&self, offset: u64, data: &mut [u8]) {
        let mut c: Vec<u8> = Vec::new();
        push_le64(&mut c, self.guest_cid);
        assert(c@ =~= le64_bytes(self.guest_cid));
        read_config_bytes(c.as_slice(), offset, data);
    }

    fn write_config(&mut self, offset: u64, data: &[u8]) {
    }

    fn negotiate(&mut self, features: u64) -> (r: bool) {
        true
    }

    fn reset(&mut self) {
        self.drop_all();
        self.reset_event = false;
    }

    fn service<R: GuestRam>(&mut self, ctx: &mut ServiceCtx, ram: &mut R) -> (r: Result<
        (),
        QueueError,
    >) {
        let mut eq: Virtqueue = ctx.queues[2];
        let signalled = self.event_queue(&mut eq, ram);
        ctx.queues.set(2, eq);
        match signalled {
            Ok(_) => {},
            Err(e) => {
                return Err(e);
            },
        }
        let mut tq: Virtqueue = ctx.queues[1];
        let taken = self.transmit_queue(&mut tq, ram);
        ctx.queues.set(1, tq);
        match taken {
            Ok(_) => {},
            Err(e) => {
                return Err(e);
            },
        }
        let mut rq: Virtqueue = ctx.queues[0];
        let r = self.receive_queue(&mut rq, ram);
        ctx.queues.set(0, rq);
        r
    }
}

proof fn lemma_part32(b: Seq<u8>, at: int, v: u32)
    requires
        0 <= at,
        at + 4 <= b.len(),
        b.subrange(at, at + 4) == le32_bytes(v),
    ensures
        le32_at(b, at) == v,
{
    crate::bytes::lemma_le32(v);
    let p = b.subrange(at, at + 4);
    assert(b[at] == p[0] && b[at + 1] == p[1] && b[at + 2] == p[2] && b[at + 3] == p[3]);
}

proof fn lemma_part16(b: Seq<u8>, at: int, v: u16)
    requires
        0 <= at,
        at + 2 <= b.len(),
        b.subrange(at, at + 2) == le16_bytes(v),
    ensures
        le16_at(b, at) == v,
{
    crate::bytes::lemma_le16(v);
    let p = b.subrange(at, at + 2);
    assert(b[at] == p[0] && b[at + 1] == p[1]);
}

/// A header read from the bytes it was written as is the same header.
#[verifier::spinoff_prover]
#[verifier::rlimit(60)]
pub proof fn law_header_round_trip(h: Hdr)
    ensures
        Hdr::of(h.bytes()) == h,
{
    let b = h.bytes();
    crate::bytes::lemma_le64(h.src_cid);
    crate::bytes::lemma_le64(h.dst_cid);
    assert(b.subrange(0, 8) =~= le64_bytes(h.src_cid));
    assert(b.subrange(8, 16) =~= le64_bytes(h.dst_cid));
    lemma_part64(b, 0, h.src_cid);
    lemma_part64(b, 8, h.dst_cid);
    assert(b.subrange(16, 20) =~= le32_bytes(h.src_port));
    lemma_part32(b, 16, h.src_port);
    assert(b.subrange(20, 24) =~= le32_bytes(h.dst_port));
    lemma_part32(b, 20, h.dst_port);
    assert(b.subrange(24, 28) =~= le32_bytes(h.len));
    lemma_part32(b, 24, h.len);
    assert(b.subrange(28, 30) =~= le16_bytes(h.ty));
    lemma_part16(b, 28, h.ty);
    assert(b.subrange(30, 32) =~= le16_bytes(h.op));
    lemma_part16(b, 30, h.op);
    assert(b.subrange(32, 36) =~= le32_bytes(h.flags));
    lemma_part32(b, 32, h.flags);
    assert(b.subrange(36, 40) =~= le32_bytes(h.buf_alloc));
    lemma_part32(b, 36, h.buf_alloc);
    assert(b.subrange(40, 44) =~= le32_bytes(h.fwd_cnt));
    lemma_part32(b, 40, h.fwd_cnt);
}

proof fn lemma_part64(b: Seq<u8>, at: int, v: u64)
    requires
        0 <= at,
        at + 8 <= b.len(),
        b.subrange(at, at + 8) == le64_bytes(v),
    ensures
        le64_at(b, at) == v,
{
    crate::bytes::lemma_le64(v);
    let p = b.subrange(at, at + 8);
    assert(b[at] == p[0] && b[at + 1] == p[1] && b[at + 2] == p[2] && b[at + 3] == p[3] && b[at + 4]
        == p[4] && b[at + 5] == p[5] && b[at + 6] == p[6] && b[at + 7] == p[7]);
}

/// A packet with data carries no more than the credit of the guest, the room of
/// the buffer and the largest load; its bytes leave the queue of their
/// connection, from the front.
pub proof fn law_data_stays_within_credit(s: Vsock, i: nat, room: nat)
    ensures
        s.next_from(i, room).1 matches Some((h, d)) ==> {
            &&& d.len() <= room
            &&& d.len() <= MAX_PKT
            &&& d.len() > 0 ==> exists|j: int|
                #![trigger s.conns[j]]
                i <= j < s.conns.len() && d.len() <= s.conns[j].1.credit() && d
                    == s.conns[j].1.tx_buf.take(d.len() as int) && s.next_from(
                    i,
                    room,
                ).0.conns[j].1.tx_buf == s.conns[j].1.tx_buf.skip(d.len() as int)
        },
    decreases s.conns.len() - i,
{
    if i < s.conns.len() {
        let k = s.conns[i as int].1;
        if k.open() && k.tx_buf.len() > 0 && k.credit() > 0 && room > 0 {
            let n = k.portion(room);
            assert(k.tx_buf.take(n as int).len() == n);
        } else if k.open() && k.tx_buf.len() == 0 && k.shutdown_pending != 0 {
        } else if k.credit_update && k.open() {
        } else {
            law_data_stays_within_credit(s, i + 1, room);
        }
    }
}

/// A request to a port where nobody listens is answered with RST.
pub proof fn law_closed_port_is_refused(s: Vsock, h: Hdr, payload: Seq<u8>)
    requires
        h.src_cid == s.guest_cid,
        h.dst_cid == HOST_CID,
        h.op == OP_REQUEST,
        !keyed(s.listening, h.dst_port as u64),
        !s.has_conn(VsockConn { host_port: h.dst_port, guest_port: h.src_port }),
    ensures
        s.received(h, payload) == s.queued(s.refusal(h)),
        s.refusal(h).op == OP_RST,
{
}

/// Packets with the wrong CIDs change nothing but the count of dropped packets.
pub proof fn law_strangers_are_dropped(s: Vsock, h: Hdr, payload: Seq<u8>)
    requires
        h.src_cid != s.guest_cid || h.dst_cid != HOST_CID,
    ensures
        s.received(h, payload) == (Vsock { dropped: s.dropped.wrapping_add(1), ..s }),
{
}

} // verus!
