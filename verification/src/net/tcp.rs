//! TCP terminated on the host's side: one connection for every SYN of the
//! guest, or for every connection that the host opens.
//!
//! - No window scaling, SACK or timestamps: the SYN carries only the MSS.
//! - Out-of-order segments are dropped with a duplicate ACK; segments that
//!   overlap what is expected are accepted.
//! - Every segment with data is acknowledged at once.
//! - Go-back-N retransmission on timeout (the RTO in virtual time,
//!   Karn's algorithm, doubling), fast retransmit at the third duplicate ACK,
//!   Reno congestion control, zero-window probes with the same timer.
//! - An RST closes the connection only at the sequence number that is expected.
//!   Inside the window, another RST or a SYN is answered with a challenge ACK;
//!   outside it, an RST is ignored.
use vstd::prelude::*;
use std::collections::VecDeque;
use crate::bytes::{copy_range, drop_front, min_len, queue_bytes, zeroed};
use crate::net::addr::{ConnId, Flow, VirtualTime};
use crate::net::events::{facts, push_event, CloseReason, Direction, Event, EventKind, Fact, NetEvent};
use crate::net::upstream::{TcpRead, TcpStatus, Upstream};
use crate::net::wire::{TcpHeader, TCP_ACK, TCP_FIN, TCP_PSH, TCP_RST, TCP_SYN};

verus! {

/// Receive buffer (data of the guest that the upstream has not taken yet): the
/// largest window that can be announced without scaling.
pub const RX_CAPACITY: usize = 65_535;
/// Transmit buffer (data of the upstream that is not acknowledged yet).
pub const TX_CAPACITY: usize = 262_144;
pub const READ_CHUNK: usize = 16_384;

pub const RTO_INITIAL: u64 = 1_000_000;
pub const RTO_MIN: u64 = 200_000;
pub const RTO_MAX: u64 = 60_000_000;
/// Consecutive timeouts without any ACK from the guest before giving up.
pub const MAX_RETRIES: u32 = 15;
/// Duration of TIME-WAIT.
pub const TIME_WAIT_US: u64 = 4_000_000;
/// MSS if the SYN does not have the option.
pub const DEFAULT_MSS: u16 = 536;

// ---- Sequence numbers -------------------------------------------------------

/// `a + b` modulo 2^32.
#[verifier::opaque]
pub open spec fn wadd(a: u32, b: u32) -> u32 {
    ((a + b) % 0x1_0000_0000) as u32
}

/// `a - b` modulo 2^32: how far `a` is ahead of `b`.
#[verifier::opaque]
pub open spec fn wsub(a: u32, b: u32) -> u32 {
    ((a - b) % 0x1_0000_0000) as u32
}

/// `a` comes before `b` on the circle of sequence numbers.
pub open spec fn before(a: u32, b: u32) -> bool {
    wsub(a, b) >= 0x8000_0000
}

/// `a` comes before `b`, or is `b`.
pub open spec fn not_after(a: u32, b: u32) -> bool {
    a == b || before(a, b)
}

pub(crate) fn seq_add(a: u32, b: u32) -> (r: u32)
    ensures
        r == wadd(a, b),
{
    reveal(wadd);
    a.wrapping_add(b)
}

fn seq_sub(a: u32, b: u32) -> (r: u32)
    ensures
        r == wsub(a, b),
{
    reveal(wsub);
    a.wrapping_sub(b)
}

pub fn seq_lt(a: u32, b: u32) -> (r: bool)
    ensures
        r == before(a, b),
{
    seq_sub(a, b) >= 0x8000_0000
}

pub fn seq_le(a: u32, b: u32) -> (r: bool)
    ensures
        r == not_after(a, b),
{
    a == b || seq_lt(a, b)
}

/// A sequence number is before every one of the 2^31 - 1 that follow it, also
/// across the wrap.
pub proof fn law_sequence_order_wraps(a: u32, d: u32)
    requires
        0 < d <= 0x7fff_ffff,
    ensures
        before(a, wadd(a, d)),
        !before(wadd(a, d), a),
{
    reveal(wadd);
    reveal(wsub);
}

#[derive(Clone, Copy, Debug, PartialEq, Eq, Structural)]
pub enum State {
    /// SYN received, waiting for the upstream to open (or refuse).
    Connecting,
    /// SYN sent to the guest, for a connection opened by the host.
    SynSent,
    SynReceived,
    Established,
    CloseWait,
    LastAck,
    FinWait1,
    FinWait2,
    Closing,
    TimeWait,
    Closed,
}

/// Segment to send to the guest (the stack adds IP and Ethernet).
#[derive(Clone, Debug)]
pub struct Segment {
    pub seq: u32,
    pub ack: u32,
    pub flags: u8,
    pub window: u16,
    pub mss: Option<u16>,
    pub payload: Vec<u8>,
}

/// What a [`Segment`] says.
#[verifier::ext_equal]
pub struct Seg {
    pub seq: u32,
    pub ack: u32,
    pub flags: u8,
    pub window: u16,
    pub mss: Option<u16>,
    pub payload: Seq<u8>,
}

impl View for Segment {
    type V = Seg;

    open spec fn view(&self) -> Seg {
        Seg {
            seq: self.seq,
            ack: self.ack,
            flags: self.flags,
            window: self.window,
            mss: self.mss,
            payload: self.payload@,
        }
    }
}

pub open spec fn segs(out: Seq<Segment>) -> Seq<Seg> {
    out.map_values(|s: Segment| s@)
}

/// What a connection produces while it acts: log entries and segments.
#[derive(Debug)]
pub struct Effects {
    pub log: Vec<NetEvent>,
    pub out: Vec<Segment>,
}

impl Effects {
    pub fn new() -> (r: Self)
        ensures
            facts(r.log@) == Seq::<Event>::empty(),
            segs(r.out@) == Seq::<Seg>::empty(),
    {
        let r = Effects { log: Vec::new(), out: Vec::new() };
        assert(facts(r.log@) =~= Seq::<Event>::empty());
        assert(segs(r.out@) =~= Seq::<Seg>::empty());
        r
    }
}

/// What surrounds a connection: the upstream's state, and what has been logged
/// and sent.
#[verifier::ext_equal]
pub struct World<M> {
    pub up: M,
    pub log: Seq<Event>,
    pub out: Seq<Seg>,
}

/// The effects alone, for what does not involve the upstream.
pub open spec fn effects(fx: Effects) -> World<()> {
    World { up: (), log: facts(fx.log@), out: segs(fx.out@) }
}

pub open spec fn world<U: Upstream>(up: U, fx: Effects) -> World<U::Model> {
    World { up: up.model(), log: facts(fx.log@), out: segs(fx.out@) }
}

/// Start of a round-trip measurement: the sequence number whose
/// acknowledgement ends it, and when it began.
#[derive(Clone, Copy, Debug, PartialEq, Eq, Structural)]
pub struct RttSample {
    pub seq: u32,
    pub at: VirtualTime,
}

/// The control block: everything in a connection but the two buffers.
#[derive(Clone, Copy, Debug, PartialEq, Eq)]
pub struct Tcb {
    pub id: ConnId,
    pub flow: Flow,
    pub state: State,
    pub local_mss: u16,
    pub mss: u32,
    // Transmission (to the guest).
    pub iss: u32,
    pub snd_una: u32,
    pub snd_nxt: u32,
    /// Highest sequence number ever sent (+1).
    pub snd_max: u32,
    pub snd_wnd: u32,
    pub snd_wl1: u32,
    pub snd_wl2: u32,
    pub cwnd: u32,
    pub ssthresh: u32,
    /// The upstream is done: after `tx` comes the FIN.
    pub tx_eof: bool,
    pub fin_seq: Option<u32>,
    // Reception (from the guest).
    pub irs: u32,
    pub rcv_nxt: u32,
    pub rx_fin: bool,
    pub shutdown_done: bool,
    /// Right edge (`rcv_nxt + window`) of the last segment sent.
    pub adv_edge: u32,
    pub ack_pending: bool,
    // Timers.
    /// RTO in use, doubled at every timeout.
    pub rto: u64,
    /// RTO computed from the samples, without doublings.
    pub rto_base: u64,
    pub srtt: Option<u64>,
    pub rttvar: u64,
    pub rtt_sample: Option<RttSample>,
    pub rtx_deadline: Option<VirtualTime>,
    pub retries: u32,
    pub dup_acks: u32,
    pub connect_deadline: VirtualTime,
    pub time_wait_deadline: VirtualTime,
    // Counters.
    pub bytes_to_remote: u64,
    pub bytes_to_guest: u64,
    pub close_reason: Option<CloseReason>,
}

/// A TCP connection with the guest.
#[derive(Debug)]
pub struct TcpConn {
    pub t: Tcb,
    /// Bytes from `snd_una` on: sent and not acknowledged, then still to send.
    pub tx: VecDeque<u8>,
    /// Bytes of the guest that the upstream has not taken yet.
    pub rx: VecDeque<u8>,
}

/// What a [`TcpConn`] holds.
#[verifier::ext_equal]
pub struct Conn {
    pub t: Tcb,
    pub tx: Seq<u8>,
    pub rx: Seq<u8>,
}

impl View for TcpConn {
    type V = Conn;

    open spec fn view(&self) -> Conn {
        Conn { t: self.t, tx: self.tx@, rx: self.rx@ }
    }
}

/// The smaller of the two.
pub open spec fn min32(a: u32, b: u32) -> u32 {
    if a <= b { a } else { b }
}

pub open spec fn max32(a: u32, b: u32) -> u32 {
    if a >= b { a } else { b }
}

/// `a + b`, saturated.
pub open spec fn sat32(a: u32, b: u32) -> u32 {
    if a + b <= u32::MAX { (a + b) as u32 } else { u32::MAX }
}

/// `a - b`, or 0.
pub open spec fn dec32(a: u32, b: u32) -> u32 {
    if a >= b { (a - b) as u32 } else { 0 }
}

/// `a + n` modulo 2^64 (the byte counters wrap).
pub open spec fn count64(a: u64, n: nat) -> u64 {
    ((a + n) % 0x1_0000_0000_0000_0000) as u64
}

pub open spec fn has_syn(flags: u8) -> bool {
    flags & TCP_SYN != 0
}

impl Tcb {
    pub open spec fn in_flight(self) -> u32 {
        wsub(self.snd_nxt, self.snd_una)
    }

    pub open spec fn armed(self, now: VirtualTime) -> Tcb {
        if self.rtx_deadline is None {
            Tcb { rtx_deadline: Some(now.later(self.rto)), ..self }
        } else {
            self
        }
    }

    pub open spec fn time_waiting(self, now: VirtualTime) -> Tcb {
        Tcb {
            state: State::TimeWait,
            rtx_deadline: None,
            time_wait_deadline: now.later(TIME_WAIT_US),
            ..self
        }
    }

    /// SRTT, RTTVAR and RTO after a sample `r`.
    #[verifier::opaque]
    pub open spec fn rtt_updated(self, r: u64) -> Tcb {
        let srtt: u64 = match self.srtt {
            None => r,
            Some(s) => ((7 * s + r) / 8) as u64,
        };
        let rttvar: u64 = match self.srtt {
            None => (r / 2) as u64,
            Some(s) => ((3 * self.rttvar + (if s >= r { s - r } else { r - s })) / 4) as u64,
        };
        let raw = srtt + (if 4 * rttvar >= 1 { 4 * rttvar } else { 1 });
        let rto: u64 = if raw < RTO_MIN {
            RTO_MIN
        } else if raw > RTO_MAX {
            RTO_MAX
        } else {
            raw as u64
        };
        Tcb { srtt: Some(srtt), rttvar, rto_base: rto, rto, ..self }
    }

    /// The congestion window after `n` bytes were acknowledged: slow start below
    /// the threshold, congestion avoidance above it.
    #[verifier::opaque]
    pub open spec fn grown_cwnd(self, n: nat) -> u32 {
        if self.cwnd < self.ssthresh {
            sat32(self.cwnd, min32(n as u32, self.mss))
        } else {
            sat32(self.cwnd, max32(((self.mss * self.mss) as u32 / self.cwnd) as u32, 1))
        }
    }

    /// The MSS to use with a peer that announced `theirs`.
    pub open spec fn agreed_mss(theirs: Option<u16>, local_mss: u16) -> u32 {
        let t = match theirs {
            Some(m) => m,
            None => DEFAULT_MSS,
        };
        let m = if t <= local_mss { t } else { local_mss };
        if m >= 64 { m as u32 } else { 64 }
    }
}

impl Conn {
    /// The receive buffer is within its capacity and the numbers that bound the
    /// arithmetic are in range.
    pub open spec fn wf(self) -> bool {
        &&& self.rx.len() <= RX_CAPACITY
        &&& 1 <= self.t.mss <= 65_535
        &&& self.t.cwnd > 0 || self.t.ssthresh > 0
        &&& self.t.rto <= 0x7FFF_FFFF_FFFF_FFFF
        &&& self.t.rto_base <= 0x7FFF_FFFF_FFFF_FFFF
        &&& self.t.retries < u32::MAX || self.t.state == State::Closed
    }

    pub open spec fn rcv_wnd(self) -> u32 {
        (RX_CAPACITY - self.rx.len()) as u32
    }

    /// A segment with the current acknowledgement and window.
    pub open spec fn segment(self, seq: u32, flags: u8, payload: Seq<u8>) -> Seg {
        Seg {
            seq,
            ack: self.t.rcv_nxt,
            flags,
            window: self.rcv_wnd() as u16,
            mss: if has_syn(flags) { Some(self.t.local_mss) } else { None },
            payload,
        }
    }

    /// After a segment has left: the window is announced, no ACK is owed.
    pub open spec fn announced(self) -> Conn {
        Conn {
            t: Tcb {
                adv_edge: wadd(self.t.rcv_nxt, self.rcv_wnd()),
                ack_pending: false,
                ..self.t
            },
            ..self
        }
    }

    /// A segment leaves.
    pub open spec fn emit<M>(self, w: World<M>, seq: u32, flags: u8, payload: Seq<u8>) -> (
        Conn,
        World<M>,
    ) {
        (
            self.announced(),
            World { out: w.out.push(self.segment(seq, flags, payload)), ..w },
        )
    }

    /// The SYN (with or without ACK) leaves.
    pub open spec fn send_syn<M>(self, w: World<M>, now: VirtualTime, flags: u8) -> (
        Conn,
        World<M>,
    ) {
        let (c, w2) = self.emit(w, self.t.iss, flags, Seq::empty());
        let nxt = wadd(c.t.iss, 1);
        (Conn { t: (Tcb { snd_nxt: nxt, snd_max: nxt, ..c.t }).armed(now), ..c }, w2)
    }

    /// RST to the guest for a known connection.
    pub open spec fn send_rst<M>(self, w: World<M>) -> (Conn, World<M>) {
        self.emit(w, self.t.snd_max, TCP_RST | TCP_ACK, Seq::empty())
    }
}


// ---- What a connection does -------------------------------------------------

/// Whether the treatment of a segment goes on after the acknowledgement.
#[derive(Clone, Copy, Debug, PartialEq, Eq, Structural)]
pub enum Verdict {
    Stop,
    GoOn,
}

/// The RST that answers an ACK of something that does not exist.
pub open spec fn bare_reset(seq: u32) -> Seg {
    Seg { seq, ack: 0, flags: TCP_RST, window: 0, mss: None, payload: Seq::empty() }
}

impl Conn {
    /// The connection ends (once): it is logged and the upstream is told.
    pub open spec fn finish<U: Upstream>(
        self,
        w: World<U::Model>,
        now: VirtualTime,
        reason: CloseReason,
        reset: bool,
    ) -> (Conn, World<U::Model>) {
        if self.t.state == State::Closed {
            (self, w)
        } else {
            (
                Conn {
                    t: Tcb {
                        state: State::Closed,
                        rtx_deadline: None,
                        close_reason: Some(reason),
                        ..self.t
                    },
                    ..self
                },
                World {
                    log: w.log.push(
                        Event {
                            at: now,
                            kind: Fact::TcpClosed {
                                id: self.t.id,
                                reason,
                                bytes_to_remote: self.t.bytes_to_remote,
                                bytes_to_guest: self.t.bytes_to_guest,
                            },
                        },
                    ),
                    up: U::closed(w.up, now, self.t.id, reset),
                    ..w
                },
            )
        }
    }

    /// The sequence number `s` is inside the receive window.
    pub open spec fn in_window(self, s: u32) -> bool {
        not_after(self.t.rcv_nxt, s) && before(s, wadd(self.t.rcv_nxt, self.rcv_wnd()))
    }

    /// Sequence numbers that a segment takes: its data, SYN and FIN.
    pub open spec fn seg_len(h: TcpHeader, len: nat) -> u32 {
        (len + (if h.flag(TCP_SYN) { 1int } else { 0 }) + (if h.flag(TCP_FIN) { 1int } else { 0 })) as u32
    }

    /// The segment has something in the receive window.
    pub open spec fn acceptable(self, h: TcpHeader, len: nat) -> bool {
        let l = Self::seg_len(h, len);
        if l == 0 {
            if self.rcv_wnd() == 0 { h.seq == self.t.rcv_nxt } else { self.in_window(h.seq) }
        } else if self.rcv_wnd() == 0 {
            false
        } else {
            self.in_window(h.seq) || self.in_window(wadd(h.seq, (l - 1) as u32))
        }
    }

    /// A segment that is not acceptable: unless it is an RST it is answered
    /// with an ACK, and a FIN in TIME-WAIT restarts the wait.
    pub open spec fn rejected(self, now: VirtualTime, h: TcpHeader) -> Conn {
        if h.flag(TCP_RST) {
            self
        } else {
            Conn {
                t: Tcb {
                    ack_pending: true,
                    time_wait_deadline: if self.t.state == State::TimeWait && h.flag(TCP_FIN) {
                        now.later(TIME_WAIT_US)
                    } else {
                        self.t.time_wait_deadline
                    },
                    ..self.t
                },
                ..self
            }
        }
    }

    /// The guest's answer to the SYN of a connection that the host opened.
    pub open spec fn syn_sent_input<U: Upstream>(
        self,
        w: World<U::Model>,
        now: VirtualTime,
        h: TcpHeader,
    ) -> (Conn, World<U::Model>) {
        let ack_ok = h.flag(TCP_ACK) && h.ack == self.t.snd_nxt;
        if h.flag(TCP_RST) {
            // Nobody listens; an RST that does not acknowledge the SYN is ignored.
            if ack_ok {
                self.finish::<U>(w, now, CloseReason::Refused, true)
            } else {
                (self, w)
            }
        } else if h.flag(TCP_ACK) && !ack_ok {
            (
                self,
                World {
                    out: w.out.push(bare_reset(h.ack)),
                    ..w
                },
            )
        } else if h.flag(TCP_SYN) && ack_ok {
            let mss = Tcb::agreed_mss(h.mss, self.t.local_mss);
            (
                Conn {
                    t: Tcb {
                        state: State::Established,
                        mss,
                        cwnd: (10 * mss) as u32,
                        snd_una: h.ack,
                        snd_wnd: h.window as u32,
                        snd_wl1: h.seq,
                        snd_wl2: h.ack,
                        irs: h.seq,
                        rcv_nxt: wadd(h.seq, 1),
                        rto: self.t.rto_base,
                        rtx_deadline: None,
                        retries: 0,
                        ack_pending: true,
                        ..self.t
                    },
                    ..self
                },
                World {
                    log: w.log.push(Event { at: now, kind: Fact::TcpEstablished { id: self.t.id } }),
                    ..w
                },
            )
        } else {
            (self, w)
        }
    }

    /// The ACK that completes the handshake, or that does not.
    pub open spec fn handshake_ack<M>(self, w: World<M>, now: VirtualTime, h: TcpHeader) -> (
        Conn,
        World<M>,
        Verdict,
    ) {
        if before(self.t.snd_una, h.ack) && not_after(h.ack, self.t.snd_max) {
            (
                Conn {
                    t: Tcb {
                        state: State::Established,
                        snd_wnd: h.window as u32,
                        snd_wl1: h.seq,
                        snd_wl2: h.ack,
                        ..self.t
                    },
                    ..self
                },
                World {
                    log: w.log.push(Event { at: now, kind: Fact::TcpEstablished { id: self.t.id } }),
                    ..w
                },
                Verdict::GoOn,
            )
        } else {
            (
                self,
                World {
                    out: w.out.push(bare_reset(h.ack)),
                    ..w
                },
                Verdict::Stop,
            )
        }
    }

    /// `ack` acknowledges the FIN.
    pub open spec fn acks_fin(self, ack: u32) -> bool {
        self.t.fin_seq matches Some(f) && before(f, ack)
    }

    /// Data bytes that `ack` acknowledges: neither the SYN nor the FIN counts.
    pub open spec fn acked_bytes(self, ack: u32) -> nat {
        let all = wsub(ack, self.t.snd_una);
        let no_syn = if self.t.snd_una == self.t.iss { dec32(all, 1) } else { all };
        let data = if self.acks_fin(ack) { dec32(no_syn, 1) } else { no_syn };
        min_len(data as nat, self.tx.len())
    }

    /// An ACK of something new.
    pub open spec fn new_ack(self, now: VirtualTime, ack: u32) -> Conn {
        let n = self.acked_bytes(ack);
        let sampled = match self.t.rtt_sample {
            Some(s) => if not_after(s.seq, ack) {
                Tcb {
                    rtt_sample: None,
                    ..self.t.rtt_updated(
                        if now.0 >= s.at.0 {
                            (now.0 - s.at.0) as u64
                        } else {
                            0
                        },
                    )
                }
            } else {
                self.t
            },
            None => self.t,
        };
        let t = Tcb {
            snd_una: ack,
            snd_nxt: if before(self.t.snd_nxt, ack) { ack } else { self.t.snd_nxt },
            dup_acks: 0,
            // An ACK of new data undoes the doublings of the RTO.
            rto: sampled.rto_base,
            cwnd: self.t.grown_cwnd(n),
            ..sampled
        };
        Conn {
            t: Tcb {
                rtx_deadline: if ack != self.t.snd_max {
                    Some(now.later(t.rto))
                } else {
                    None
                },
                ..t
            },
            tx: self.tx.skip(n as int),
            rx: self.rx,
        }
    }

    /// The segment is a duplicate ACK.
    pub open spec fn is_dup_ack(self, h: TcpHeader, len: nat) -> bool {
        &&& h.ack == self.t.snd_una
        &&& len == 0
        &&& !h.flag(TCP_FIN)
        &&& h.window == self.t.snd_wnd
        &&& self.t.snd_wnd != 0
        &&& self.t.snd_max != self.t.snd_una
    }

    /// Bytes of the first unacknowledged segment, if it was sent.
    pub open spec fn first_len(self) -> nat {
        min_len(
            min_len(self.t.mss as nat, self.tx.len()),
            wsub(self.t.snd_max, self.t.snd_una) as nat,
        )
    }

    pub open spec fn fast_retransmit<M>(self, w: World<M>) -> (Conn, World<M>) {
        let ssthresh = max32(self.t.in_flight() / 2, (2 * self.t.mss) as u32);
        let c = Conn { t: Tcb { ssthresh, cwnd: ssthresh, rtt_sample: None, ..self.t }, ..self };
        if self.first_len() == 0 {
            (c, w)
        } else {
            c.emit(w, self.t.snd_una, TCP_ACK, self.tx.take(self.first_len() as int))
        }
    }

    pub open spec fn dup_ack<M>(self, w: World<M>) -> (Conn, World<M>) {
        let c = Conn { t: Tcb { dup_acks: wadd(self.t.dup_acks, 1), ..self.t }, ..self };
        if c.t.dup_acks == 3 { c.fast_retransmit(w) } else { (c, w) }
    }

    /// A valid ACK: it proves that the guest is alive, and is new, a duplicate
    /// or neither.
    #[verifier::opaque]
    pub open spec fn ack_taken<M>(self, w: World<M>, now: VirtualTime, h: TcpHeader, len: nat) -> (
        Conn,
        World<M>,
    ) {
        let c = if not_after(self.t.snd_una, h.ack) {
            Conn { t: Tcb { retries: 0, ..self.t }, ..self }
        } else {
            self
        };
        if before(c.t.snd_una, h.ack) {
            (c.new_ack(now, h.ack), w)
        } else if c.is_dup_ack(h, len) {
            c.dup_ack(w)
        } else {
            (c, w)
        }
    }

    /// The window that the segment announces, if it is not older than the last.
    pub open spec fn window_taken(self, h: TcpHeader) -> Conn {
        if before(self.t.snd_wl1, h.seq) || (self.t.snd_wl1 == h.seq && not_after(
            self.t.snd_wl2,
            h.ack,
        )) {
            Conn {
                t: Tcb { snd_wnd: h.window as u32, snd_wl1: h.seq, snd_wl2: h.ack, ..self.t },
                ..self
            }
        } else {
            self
        }
    }

    /// What the acknowledgement of the FIN leads to.
    pub open spec fn fin_acked<U: Upstream>(self, w: World<U::Model>, now: VirtualTime) -> (
        Conn,
        World<U::Model>,
        Verdict,
    ) {
        if self.t.state == State::FinWait1 {
            (Conn { t: Tcb { state: State::FinWait2, ..self.t }, ..self }, w, Verdict::GoOn)
        } else if self.t.state == State::Closing {
            (Conn { t: self.t.time_waiting(now), ..self }, w, Verdict::GoOn)
        } else if self.t.state == State::LastAck {
            let (c, w2) = self.finish::<U>(w, now, CloseReason::Normal, false);
            (c, w2, Verdict::Stop)
        } else {
            (self, w, Verdict::GoOn)
        }
    }

    /// Everything that the acknowledgement of a segment does.
    pub open spec fn ack_input<U: Upstream>(
        self,
        w: World<U::Model>,
        now: VirtualTime,
        h: TcpHeader,
        len: nat,
    ) -> (Conn, World<U::Model>, Verdict) {
        let (c1, w1, v1) = if self.t.state == State::SynReceived {
            self.handshake_ack(w, now, h)
        } else {
            (self, w, Verdict::GoOn)
        };
        if v1 is Stop {
            (c1, w1, Verdict::Stop)
        } else if before(c1.t.snd_max, h.ack) {
            // It acknowledges something that was never sent.
            (Conn { t: Tcb { ack_pending: true, ..c1.t }, ..c1 }, w1, Verdict::Stop)
        } else {
            let fin = before(c1.t.snd_una, h.ack) && c1.acks_fin(h.ack);
            let (c2, w2) = c1.ack_taken(w1, now, h, len);
            let c3 = c2.window_taken(h);
            if fin { c3.fin_acked::<U>(w2, now) } else { (c3, w2, Verdict::GoOn) }
        }
    }

    /// The state takes data from the guest.
    pub open spec fn takes_data(self) -> bool {
        self.t.state == State::Established || self.t.state == State::FinWait1 || self.t.state
            == State::FinWait2
    }

    /// The part of the payload that is new: what was received already is
    /// skipped.
    pub open spec fn new_data(self, h: TcpHeader, payload: Seq<u8>) -> Seq<u8> {
        payload.skip(min_len(wsub(self.t.rcv_nxt, h.seq) as nat, payload.len()) as int)
    }

    /// Bytes of the new data that fit in the window.
    pub open spec fn taken_len(self, h: TcpHeader, payload: Seq<u8>) -> nat {
        min_len(self.new_data(h, payload).len(), self.rcv_wnd() as nat)
    }

    /// The segment's data reaches the end of what it carries: nothing is
    /// missing before it and all of it fits.
    pub open spec fn data_complete(self, h: TcpHeader, payload: Seq<u8>) -> bool {
        payload.len() == 0 || !self.takes_data() || (!before(self.t.rcv_nxt, h.seq)
            && self.taken_len(h, payload) == self.new_data(h, payload).len())
    }

    /// The data of a segment: what is new and fits is taken, in order.
    pub open spec fn data_input<M>(
        self,
        w: World<M>,
        now: VirtualTime,
        h: TcpHeader,
        payload: Seq<u8>,
    ) -> (Conn, World<M>) {
        if payload.len() == 0 || !self.takes_data() {
            (self, w)
        } else {
            let n = self.taken_len(h, payload);
            if before(self.t.rcv_nxt, h.seq) || n == 0 {
                (Conn { t: Tcb { ack_pending: true, ..self.t }, ..self }, w)
            } else {
                (
                    Conn {
                        t: Tcb {
                            rcv_nxt: wadd(self.t.rcv_nxt, n as u32),
                            bytes_to_remote: count64(self.t.bytes_to_remote, n),
                            ack_pending: true,
                            ..self.t
                        },
                        rx: self.rx + self.new_data(h, payload).take(n as int),
                        ..self
                    },
                    World {
                        log: w.log.push(
                            Event {
                                at: now,
                                kind: Fact::TcpData {
                                    id: self.t.id,
                                    dir: Direction::ToRemote,
                                    len: n as usize,
                                },
                            },
                        ),
                        ..w
                    },
                )
            }
        }
    }

    /// The guest's FIN, when everything before it has been received.
    pub open spec fn fin_input(self, now: VirtualTime) -> Conn {
        let t = if self.t.state == State::Established {
            Tcb { state: State::CloseWait, ..self.t }
        } else if self.t.state == State::FinWait1 {
            Tcb { state: State::Closing, ..self.t }
        } else if self.t.state == State::FinWait2 {
            self.t.time_waiting(now)
        } else {
            self.t
        };
        if self.takes_data() {
            Conn {
                t: Tcb { rcv_nxt: wadd(t.rcv_nxt, 1), rx_fin: true, ack_pending: true, ..t },
                ..self
            }
        } else {
            Conn { t: Tcb { ack_pending: true, ..t }, ..self }
        }
    }

    /// Data and FIN of an acceptable segment.
    pub open spec fn text_input<M>(
        self,
        w: World<M>,
        now: VirtualTime,
        h: TcpHeader,
        payload: Seq<u8>,
    ) -> (Conn, World<M>) {
        let complete = self.data_complete(h, payload);
        let (c, w2) = self.data_input(w, now, h, payload);
        if h.flag(TCP_FIN) && complete && wadd(h.seq, payload.len() as u32) == c.t.rcv_nxt {
            (c.fin_input(now), w2)
        } else {
            (c, w2)
        }
    }

    /// A segment from the guest for this connection.
    pub open spec fn input<U: Upstream>(
        self,
        w: World<U::Model>,
        now: VirtualTime,
        h: TcpHeader,
        payload: Seq<u8>,
    ) -> (Conn, World<U::Model>) {
        if self.t.state == State::Closed {
            (self, w)
        } else if self.t.state == State::Connecting {
            // A retransmitted SYN is ignored: the upstream has still to answer.
            if h.flag(TCP_RST) && (h.seq == self.t.rcv_nxt || h.seq == self.t.irs) {
                self.finish::<U>(w, now, CloseReason::GuestReset, true)
            } else {
                (self, w)
            }
        } else if self.t.state == State::SynSent {
            self.syn_sent_input::<U>(w, now, h)
        } else if self.t.state == State::SynReceived && h.flag(TCP_SYN) && !h.flag(TCP_ACK) && h.seq
            == self.t.irs {
            // The guest has not seen the SYN-ACK.
            self.send_syn(w, now, TCP_SYN | TCP_ACK)
        } else if !self.acceptable(h, payload.len()) {
            (self.rejected(now, h), w)
        } else if h.flag(TCP_RST) && h.seq == self.t.rcv_nxt {
            self.finish::<U>(w, now, CloseReason::GuestReset, true)
        } else if h.flag(TCP_RST) || h.flag(TCP_SYN) {
            // RST inside the window but not where it is expected, or SYN inside
            // the window: challenge ACK.
            (Conn { t: Tcb { ack_pending: true, ..self.t }, ..self }, w)
        } else if !h.flag(TCP_ACK) {
            (self, w)
        } else {
            let (c, w2, v) = self.ack_input::<U>(w, now, h, payload.len());
            if v is Stop { (c, w2) } else { c.text_input(w2, now, h, payload) }
        }
    }

    // ---- Timers ---------------------------------------------------------------

    /// Data that was never sent waits in the buffer.
    pub open spec fn has_unsent(self) -> bool {
        self.tx.len() > self.t.in_flight()
    }

    /// The retransmission timer has something to do.
    pub open spec fn must_retransmit(self) -> bool {
        self.t.snd_una != self.t.snd_max || (self.t.snd_wnd == 0 && self.has_unsent())
    }

    /// The retransmission itself, once the retries are counted.
    pub open spec fn retransmit<M>(self, w: World<M>, now: VirtualTime) -> (Conn, World<M>) {
        let lost = self.t.snd_una != self.t.snd_max;
        let t = Tcb {
            rto: if self.t.rto * 2 <= RTO_MAX { (self.t.rto * 2) as u64 } else { RTO_MAX },
            rtt_sample: None,
            ssthresh: if lost {
                max32(wsub(self.t.snd_max, self.t.snd_una) / 2, (2 * self.t.mss) as u32)
            } else {
                self.t.ssthresh
            },
            cwnd: if lost { self.t.mss } else { self.t.cwnd },
            ..self.t
        };
        let c = Conn { t, ..self };
        if self.t.state == State::SynReceived {
            c.send_syn(w, now, TCP_SYN | TCP_ACK)
        } else if self.t.state == State::SynSent {
            c.send_syn(w, now, TCP_SYN)
        } else {
            // Go-back-N: start again from `snd_una`.
            let back = Conn { t: Tcb { snd_nxt: c.t.snd_una, ..c.t }, ..c };
            let (d, w2) = if back.t.snd_wnd == 0 && back.tx.len() > 0 {
                // Zero-window probe: an empty segment with a sequence number that
                // is acknowledged already.
                back.emit(w, wsub(back.t.snd_una, 1), TCP_ACK, Seq::empty())
            } else {
                (back, w)
            };
            (Conn { t: d.t.armed(now), ..d }, w2)
        }
    }

    /// What the timers do at `now`.
    pub open spec fn on_timer<U: Upstream>(self, w: World<U::Model>, now: VirtualTime) -> (
        Conn,
        World<U::Model>,
    ) {
        if self.t.state == State::Closed {
            (self, w)
        } else if self.t.state == State::TimeWait && now.0 >= self.t.time_wait_deadline.0 {
            self.finish::<U>(w, now, CloseReason::Normal, false)
        } else if self.t.state == State::SynSent && now.0 >= self.t.connect_deadline.0 {
            // The guest never answered: give up without an RST.
            self.finish::<U>(w, now, CloseReason::Timeout, true)
        } else {
            match self.t.rtx_deadline {
                Some(d) => if now.0 < d.0 {
                    (self, w)
                } else {
                    let c = Conn { t: Tcb { rtx_deadline: None, ..self.t }, ..self };
                    if !c.must_retransmit() {
                        (c, w)
                    } else {
                        let c2 = Conn { t: Tcb { retries: (c.t.retries + 1) as u32, ..c.t }, ..c };
                        if c2.t.retries > MAX_RETRIES {
                            let (c3, w3) = c2.send_rst(w);
                            c3.finish::<U>(w3, now, CloseReason::Timeout, true)
                        } else {
                            c2.retransmit(w, now)
                        }
                    }
                },
                None => (self, w),
            }
        }
    }

    // ---- Exchange with the upstream -------------------------------------------

    /// How the opening of the connection goes on, given the upstream's status.
    pub open spec fn opening<U: Upstream>(
        self,
        w: World<U::Model>,
        now: VirtualTime,
        status: TcpStatus,
    ) -> (Conn, World<U::Model>, Verdict) {
        match status {
            TcpStatus::Connected => {
                let (c, w2) = (Conn {
                    t: Tcb { state: State::SynReceived, ..self.t },
                    ..self
                }).send_syn(w, now, TCP_SYN | TCP_ACK);
                (c, w2, Verdict::GoOn)
            },
            TcpStatus::Refused => {
                let (c, w2) = self.emit(w, 0, TCP_RST | TCP_ACK, Seq::empty());
                let (d, w3) = c.finish::<U>(w2, now, CloseReason::Refused, true);
                (d, w3, Verdict::Stop)
            },
            TcpStatus::Pending => if now.0 >= self.t.connect_deadline.0 {
                let (c, w2) = self.emit(w, 0, TCP_RST | TCP_ACK, Seq::empty());
                let (d, w3) = c.finish::<U>(w2, now, CloseReason::Timeout, true);
                (d, w3, Verdict::Stop)
            } else {
                (self, w, Verdict::Stop)
            },
        }
    }

    /// The upstream takes what it wants of the received data, then learns of
    /// the guest's FIN once all of it is gone.
    pub open spec fn deliver<U: Upstream>(self, w: World<U::Model>, now: VirtualTime) -> (
        Conn,
        World<U::Model>,
    ) {
        let (c, w2) = if self.rx.len() == 0 {
            (self, w)
        } else {
            let n = min_len(
                U::write_count(w.up, now, self.t.id, self.rx) as nat,
                self.rx.len(),
            );
            (
                Conn { rx: self.rx.skip(n as int), ..self },
                World { up: U::write_next(w.up, now, self.t.id, self.rx), ..w },
            )
        };
        if c.rx.len() == 0 && c.t.rx_fin && !c.t.shutdown_done {
            (
                Conn { t: Tcb { shutdown_done: true, ..c.t }, ..c },
                World { up: U::shut(w2.up, now, c.t.id), ..w2 },
            )
        } else {
            (c, w2)
        }
    }

    /// The window has opened by at least a segment since it was last announced:
    /// an update is due.
    pub open spec fn window_reopened(self) -> bool {
        let edge = wadd(self.t.rcv_nxt, self.rcv_wnd());
        &&& !self.t.rx_fin
        &&& before(self.t.adv_edge, edge)
        &&& wsub(edge, self.t.adv_edge) >= min32(self.t.mss, 32_767)
    }

    pub open spec fn window_checked(self) -> Conn {
        if self.window_reopened() {
            Conn { t: Tcb { ack_pending: true, ..self.t }, ..self }
        } else {
            self
        }
    }

    pub open spec fn reads_upstream(self) -> bool {
        (self.t.state == State::SynReceived || self.t.state == State::Established || self.t.state
            == State::CloseWait) && !self.t.tx_eof
    }

    /// Room left in the transmit buffer.
    pub open spec fn tx_room(self) -> nat {
        if self.tx.len() <= TX_CAPACITY { (TX_CAPACITY - self.tx.len()) as nat } else { 0 }
    }

    /// Room that a read offers to the upstream.
    pub open spec fn read_room(self) -> nat {
        min_len(self.tx_room(), READ_CHUNK as nat)
    }

    /// Data of the upstream, read until there is none or no room.
    pub open spec fn fetch<U: Upstream>(self, w: World<U::Model>, now: VirtualTime) -> (
        Conn,
        World<U::Model>,
        Verdict,
    )
        decreases self.tx_room(),
    {
        if self.tx_room() == 0 {
            (self, w, Verdict::GoOn)
        } else {
            let id = self.t.id;
            let room = self.read_room();
            let w2 = World { up: U::read_next(w.up, now, id, room), ..w };
            match U::read_result(w.up, now, id, room) {
                TcpRead::Data(n) => {
                    let data = U::read_data(w.up, now, id, room);
                    if n == 0 || data.len() == 0 {
                        (self, w2, Verdict::GoOn)
                    } else {
                        (Conn {
                            t: Tcb {
                                bytes_to_guest: count64(self.t.bytes_to_guest, data.len()),
                                ..self.t
                            },
                            tx: self.tx + data,
                            ..self
                        }).fetch::<U>(
                            World {
                                log: w2.log.push(
                                    Event {
                                        at: now,
                                        kind: Fact::TcpData {
                                            id,
                                            dir: Direction::ToGuest,
                                            len: n,
                                        },
                                    },
                                ),
                                ..w2
                            },
                            now,
                        )
                    }
                },
                TcpRead::WouldBlock => (self, w2, Verdict::GoOn),
                TcpRead::Eof => (
                    Conn { t: Tcb { tx_eof: true, ..self.t }, ..self },
                    w2,
                    Verdict::GoOn,
                ),
                TcpRead::Reset => {
                    let (c, w3) = self.send_rst(w2);
                    let (d, w4) = c.finish::<U>(w3, now, CloseReason::RemoteReset, true);
                    (d, w4, Verdict::Stop)
                },
            }
        }
    }

    // ---- Transmission -----------------------------------------------------------

    pub open spec fn transmits(self) -> bool {
        self.t.state == State::Established || self.t.state == State::CloseWait || self.t.state
            == State::FinWait1 || self.t.state == State::LastAck || self.t.state == State::Closing
    }

    /// What the guest's window and the congestion window still allow.
    pub open spec fn usable(self) -> u32 {
        dec32(min32(self.t.snd_wnd, self.t.cwnd), self.t.in_flight())
    }

    /// Bytes of the next data segment; 0 if none can leave.
    pub open spec fn next_len(self) -> nat {
        if self.t.in_flight() >= self.tx.len() {
            0
        } else {
            min_len(
                min32(self.t.mss, self.usable()) as nat,
                (self.tx.len() - self.t.in_flight()) as nat,
            )
        }
    }

    /// One data segment leaves.
    pub open spec fn send_next<M>(self, w: World<M>, now: VirtualTime) -> (Conn, World<M>) {
        let off = self.t.in_flight() as int;
        let n = self.next_len() as int;
        let flags = if off + n == self.tx.len() { TCP_ACK | TCP_PSH } else { TCP_ACK };
        let (c, w2) = self.emit(w, self.t.snd_nxt, flags, self.tx.subrange(off, off + n));
        let end = wadd(self.t.snd_nxt, n as u32);
        let t = Tcb {
            rtt_sample: if c.t.rtt_sample is None && c.t.snd_nxt == c.t.snd_max {
                Some(RttSample { seq: end, at: now })
            } else {
                c.t.rtt_sample
            },
            snd_nxt: end,
            snd_max: if before(c.t.snd_max, end) { end } else { c.t.snd_max },
            ..c.t
        };
        (Conn { t: t.armed(now), ..c }, w2)
    }

    /// Data segments leave as long as the windows allow.
    pub open spec fn send_data<M>(self, w: World<M>, now: VirtualTime) -> (Conn, World<M>)
        decreases self.tx.len() - self.t.in_flight(),
    {
        if self.next_len() == 0 {
            (self, w)
        } else {
            proof {
                lemma_advance(self.t.snd_una, self.t.snd_nxt, self.next_len() as u32);
            }
            let (c, w2) = self.send_next(w, now);
            c.send_data(w2, now)
        }
    }

    /// The FIN is to be sent now (again, if it was lost).
    pub open spec fn fin_due(self) -> bool {
        self.t.tx_eof && self.t.in_flight() == self.tx.len() && match self.t.fin_seq {
            None => self.t.state == State::Established || self.t.state == State::CloseWait,
            Some(f) => f == self.t.snd_nxt,
        }
    }

    pub open spec fn send_fin<M>(self, w: World<M>, now: VirtualTime) -> (Conn, World<M>) {
        let state = if self.t.fin_seq is None {
            if self.t.state == State::Established { State::FinWait1 } else { State::LastAck }
        } else {
            self.t.state
        };
        let seq = self.t.snd_nxt;
        let (c, w2) = (Conn {
            t: Tcb { state, fin_seq: Some(seq), ..self.t },
            ..self
        }).emit(w, seq, TCP_FIN | TCP_ACK, Seq::empty());
        let end = wadd(seq, 1);
        let t = Tcb {
            snd_nxt: end,
            snd_max: if before(c.t.snd_max, end) { end } else { c.t.snd_max },
            ..c.t
        };
        (Conn { t: t.armed(now), ..c }, w2)
    }

    pub open spec fn transmit<M>(self, w: World<M>, now: VirtualTime) -> (Conn, World<M>) {
        if !self.transmits() {
            (self, w)
        } else {
            let (c, w2) = self.send_data(w, now);
            let (d, w3) = if c.fin_due() { c.send_fin(w2, now) } else { (c, w2) };
            // Zero window with data waiting: the timer acts as persist timer.
            let e = if d.t.snd_wnd == 0 && d.t.snd_una == d.t.snd_max && d.has_unsent() {
                Conn { t: d.t.armed(now), ..d }
            } else {
                d
            };
            (e, w3)
        }
    }

    /// What is sent after the exchange with the upstream: data, FIN, and an ACK
    /// if one is still owed.
    pub open spec fn flush<M>(self, w: World<M>, now: VirtualTime) -> (Conn, World<M>) {
        let (c, w2) = self.transmit(w, now);
        if c.t.ack_pending {
            c.emit(w2, c.t.snd_nxt, TCP_ACK, Seq::empty())
        } else {
            (c, w2)
        }
    }

    /// Exchange with the upstream and transmission, for an open connection.
    pub open spec fn exchange<U: Upstream>(self, w: World<U::Model>, now: VirtualTime) -> (
        Conn,
        World<U::Model>,
    ) {
        let (c, w2) = self.deliver::<U>(w, now);
        let d = c.window_checked();
        let (e, w3, v) = if d.reads_upstream() {
            d.fetch::<U>(w2, now)
        } else {
            (d, w2, Verdict::GoOn)
        };
        if v is Stop { (e, w3) } else { e.flush(w3, now) }
    }

    /// Exchange with the upstream and transmission.
    pub open spec fn process<U: Upstream>(self, w: World<U::Model>, now: VirtualTime) -> (
        Conn,
        World<U::Model>,
    ) {
        if self.t.state == State::Closed {
            (self, w)
        } else if self.t.state == State::Connecting {
            let status = U::status(w.up, now, self.t.id);
            let w2 = World { up: U::status_next(w.up, now, self.t.id), ..w };
            let (c, w3, v) = self.opening::<U>(w2, now, status);
            if v is Stop { (c, w3) } else { c.exchange::<U>(w3, now) }
        } else {
            self.exchange::<U>(w, now)
        }
    }

    /// The host breaks the connection: RST to the guest, unless it never
    /// answered the SYN.
    pub open spec fn aborted<U: Upstream>(self, w: World<U::Model>, now: VirtualTime) -> (
        Conn,
        World<U::Model>,
    ) {
        if self.t.state == State::Closed {
            (self, w)
        } else {
            let (c, w2) = if self.t.state == State::SynSent { (self, w) } else { self.send_rst(w) };
            c.finish::<U>(w2, now, CloseReason::RemoteReset, true)
        }
    }

    /// When the timers have something to do next.
    pub open spec fn next_deadline(self) -> Option<VirtualTime> {
        match self.t.state {
            State::Closed => None,
            State::Connecting => Some(self.t.connect_deadline),
            State::SynSent => match self.t.rtx_deadline {
                Some(d) => Some(if d.0 <= self.t.connect_deadline.0 { d } else { self.t.connect_deadline }),
                None => Some(self.t.connect_deadline),
            },
            State::TimeWait => Some(self.t.time_wait_deadline),
            _ => self.t.rtx_deadline,
        }
    }

    /// The connection that a SYN of the guest starts.
    pub open spec fn from_syn(
        id: ConnId,
        flow: Flow,
        syn: TcpHeader,
        iss: u32,
        local_mss: u16,
        now: VirtualTime,
        connect_timeout_us: u64,
    ) -> Conn {
        let mss = Tcb::agreed_mss(syn.mss, local_mss);
        Conn {
            t: Tcb {
                state: State::Connecting,
                mss,
                cwnd: (10 * mss) as u32,
                snd_wnd: syn.window as u32,
                snd_wl1: syn.seq,
                irs: syn.seq,
                rcv_nxt: wadd(syn.seq, 1),
                adv_edge: wadd(wadd(syn.seq, 1), 65_535),
                ..Self::blank(id, flow, iss, local_mss, now.later(connect_timeout_us))
            },
            tx: Seq::empty(),
            rx: Seq::empty(),
        }
    }

    /// The connection that the host starts, before its SYN leaves.
    pub open spec fn towards_guest(
        id: ConnId,
        flow: Flow,
        iss: u32,
        local_mss: u16,
        now: VirtualTime,
        connect_timeout_us: u64,
    ) -> Conn {
        Conn {
            t: Self::blank(id, flow, iss, local_mss, now.later(connect_timeout_us)),
            tx: Seq::empty(),
            rx: Seq::empty(),
        }
    }

    /// A control block before anything is known of the guest's side.
    pub open spec fn blank(
        id: ConnId,
        flow: Flow,
        iss: u32,
        local_mss: u16,
        connect_deadline: VirtualTime,
    ) -> Tcb {
        Tcb {
            id,
            flow,
            state: State::SynSent,
            local_mss,
            mss: Tcb::agreed_mss(None, local_mss),
            iss,
            snd_una: iss,
            snd_nxt: iss,
            snd_max: iss,
            snd_wnd: 0,
            snd_wl1: 0,
            snd_wl2: iss,
            cwnd: (10 * Tcb::agreed_mss(None, local_mss)) as u32,
            ssthresh: u32::MAX,
            tx_eof: false,
            fin_seq: None,
            irs: 0,
            rcv_nxt: 0,
            rx_fin: false,
            shutdown_done: false,
            adv_edge: 65_535,
            ack_pending: false,
            rto: RTO_INITIAL,
            rto_base: RTO_INITIAL,
            srtt: None,
            rttvar: 0,
            rtt_sample: None,
            rtx_deadline: None,
            retries: 0,
            dup_acks: 0,
            connect_deadline,
            time_wait_deadline: VirtualTime(u64::MAX),
            bytes_to_remote: 0,
            bytes_to_guest: 0,
            close_reason: None,
        }
    }
}


// ---- Executable part ----------------------------------------------------------

/// An ACK acts on the segments alone, whatever the upstream is.
proof fn lemma_ack_taken_effects<M>(
    c: Conn,
    w: World<M>,
    e: World<()>,
    now: VirtualTime,
    h: TcpHeader,
    len: nat,
)
    requires
        w.log == e.log,
        w.out == e.out,
    ensures
        c.ack_taken(w, now, h, len).0 == c.ack_taken(e, now, h, len).0,
        c.ack_taken(w, now, h, len).1 == (World {
            out: c.ack_taken(e, now, h, len).1.out,
            ..w
        }),
        c.ack_taken(e, now, h, len).1.log == e.log,
{
    reveal(Conn::ack_taken);
}

/// Bytes that fit in 32 bits together with those in flight add to them.
pub proof fn lemma_advance(una: u32, nxt: u32, n: u32)
    ensures
        wsub(nxt, una) + n <= u32::MAX ==> wsub(wadd(nxt, n), una) == wsub(nxt, una) + n,
{
    reveal(wadd);
    reveal(wsub);
}

/// A data segment takes the sequence numbers of its bytes.
proof fn lemma_send_next_advances<M>(c: Conn, w: World<M>, now: VirtualTime)
    requires
        c.next_len() > 0,
    ensures
        c.send_next(w, now).0.t.in_flight() == c.t.in_flight() + c.next_len(),
        c.send_next(w, now).0.tx == c.tx,
        c.t.in_flight() + c.next_len() <= c.tx.len(),
{
    lemma_advance(c.t.snd_una, c.t.snd_nxt, c.next_len() as u32);
}

/// Sending data acts on the segments alone, whatever the upstream is.
proof fn lemma_send_data_effects<M>(c: Conn, w: World<M>, e: World<()>, now: VirtualTime)
    requires
        c.wf(),
        w.log == e.log,
        w.out == e.out,
    ensures
        c.send_data(w, now).0 == c.send_data(e, now).0,
        c.send_data(w, now).1 == (World { out: c.send_data(e, now).1.out, ..w }),
        c.send_data(e, now).1.log == e.log,
    decreases c.tx.len() - c.t.in_flight(),
{
    if c.next_len() > 0 {
        lemma_send_next_advances(c, w, now);
        let (c2, w2) = c.send_next(w, now);
        let (_, e2) = c.send_next(e, now);
        lemma_send_data_effects(c2, w2, e2, now);
    }
}

proof fn lemma_flush_effects<M>(c: Conn, w: World<M>, e: World<()>, now: VirtualTime)
    requires
        c.wf(),
        w.log == e.log,
        w.out == e.out,
    ensures
        c.flush(w, now).0 == c.flush(e, now).0,
        c.flush(w, now).1 == (World { out: c.flush(e, now).1.out, ..w }),
        c.flush(e, now).1.log == e.log,
{
    lemma_send_data_effects(c, w, e, now);
}

/// Appends a segment.
fn push_segment(out: &mut Vec<Segment>, s: Segment)
    ensures
        segs(final(out)@) == segs(old(out)@).push(s@),
{
    out.push(s);
    assert(segs(out@) =~= segs(old(out)@).push(s@));
}

impl Tcb {
    fn in_flight_now(&self) -> (r: u32)
        ensures
            r == self.in_flight(),
    {
        seq_sub(self.snd_nxt, self.snd_una)
    }

    fn arm_rtx(&mut self, now: VirtualTime)
        ensures
            *final(self) == old(self).armed(now),
    {
        if self.rtx_deadline.is_none() {
            self.rtx_deadline = Some(now.after(self.rto));
        }
    }

    fn enter_time_wait(&mut self, now: VirtualTime)
        ensures
            *final(self) == old(self).time_waiting(now),
    {
        self.state = State::TimeWait;
        self.rtx_deadline = None;
        self.time_wait_deadline = now.after(TIME_WAIT_US);
    }

    /// Takes a round-trip sample into account.
    pub fn rtt_update(&mut self, r: u64)
        ensures
            *final(self) == old(self).rtt_updated(r),
            *final(self) == (Tcb {
                srtt: final(self).srtt,
                rttvar: final(self).rttvar,
                rto: final(self).rto,
                rto_base: final(self).rto,
                ..*old(self)
            }),
            RTO_MIN <= final(self).rto <= RTO_MAX,
    {
        reveal(Tcb::rtt_updated);
        let (srtt, rttvar): (u64, u64) = match self.srtt {
            None => (r, r / 2),
            Some(s) => {
                let diff: u64 = if s >= r { s - r } else { r - s };
                (
                    ((7 * s as u128 + r as u128) / 8) as u64,
                    ((3 * self.rttvar as u128 + diff as u128) / 4) as u64,
                )
            },
        };
        let four: u128 = 4 * rttvar as u128;
        let raw: u128 = srtt as u128 + (if four >= 1 { four } else { 1 });
        let rto: u64 = if raw < RTO_MIN as u128 {
            RTO_MIN
        } else if raw > RTO_MAX as u128 {
            RTO_MAX
        } else {
            raw as u64
        };
        self.srtt = Some(srtt);
        self.rttvar = rttvar;
        self.rto_base = rto;
        self.rto = rto;
    }

    fn cwnd_after(&self, n: usize) -> (r: u32)
        requires
            n <= u32::MAX,
            self.mss <= 65_535,
            self.cwnd > 0 || self.ssthresh > 0,
        ensures
            r == self.grown_cwnd(n as nat),
            r >= self.cwnd,
    {
        reveal(Tcb::grown_cwnd);
        if self.cwnd < self.ssthresh {
            let m: u32 = if n as u32 <= self.mss { n as u32 } else { self.mss };
            self.cwnd.saturating_add(m)
        } else {
            let mss: u32 = self.mss;
            assert(mss * mss <= 65_535 * 65_535) by (nonlinear_arith)
                requires
                    mss <= 65_535,
            ;
            let q: u32 = mss * mss / self.cwnd;
            self.cwnd.saturating_add(if q >= 1 { q } else { 1 })
        }
    }

    fn mss_agreed(theirs: Option<u16>, local_mss: u16) -> (r: u32)
        ensures
            r == Self::agreed_mss(theirs, local_mss),
            64 <= r <= 65_535,
    {
        let t: u16 = match theirs {
            Some(m) => m,
            None => DEFAULT_MSS,
        };
        let m: u16 = if t <= local_mss { t } else { local_mss };
        if m >= 64 { m as u32 } else { 64 }
    }

    fn empty(
        id: ConnId,
        flow: Flow,
        iss: u32,
        local_mss: u16,
        connect_deadline: VirtualTime,
    ) -> (r: Tcb)
        ensures
            r == Conn::blank(id, flow, iss, local_mss, connect_deadline),
    {
        let mss: u32 = Tcb::mss_agreed(None, local_mss);
        Tcb {
            id,
            flow,
            state: State::SynSent,
            local_mss,
            mss,
            iss,
            snd_una: iss,
            snd_nxt: iss,
            snd_max: iss,
            snd_wnd: 0,
            snd_wl1: 0,
            snd_wl2: iss,
            cwnd: 10 * mss,
            ssthresh: u32::MAX,
            tx_eof: false,
            fin_seq: None,
            irs: 0,
            rcv_nxt: 0,
            rx_fin: false,
            shutdown_done: false,
            adv_edge: 65_535,
            ack_pending: false,
            rto: RTO_INITIAL,
            rto_base: RTO_INITIAL,
            srtt: None,
            rttvar: 0,
            rtt_sample: None,
            rtx_deadline: None,
            retries: 0,
            dup_acks: 0,
            connect_deadline,
            time_wait_deadline: VirtualTime(u64::MAX),
            bytes_to_remote: 0,
            bytes_to_guest: 0,
            close_reason: None,
        }
    }
}

impl TcpConn {
    /// The connection that a SYN of the guest starts.
    pub fn new(
        id: ConnId,
        flow: Flow,
        syn: &TcpHeader,
        iss: u32,
        local_mss: u16,
        now: VirtualTime,
        connect_timeout_us: u64,
    ) -> (r: TcpConn)
        ensures
            r@ == Conn::from_syn(id, flow, *syn, iss, local_mss, now, connect_timeout_us),
            r@.wf(),
    {
        let mss: u32 = Tcb::mss_agreed(syn.mss, local_mss);
        let rcv_nxt: u32 = seq_add(syn.seq, 1);
        let mut t = Tcb::empty(id, flow, iss, local_mss, now.after(connect_timeout_us));
        t.state = State::Connecting;
        t.mss = mss;
        t.cwnd = 10 * mss;
        t.snd_wnd = syn.window as u32;
        t.snd_wl1 = syn.seq;
        t.irs = syn.seq;
        t.rcv_nxt = rcv_nxt;
        t.adv_edge = seq_add(rcv_nxt, 65_535);
        let r = TcpConn { t, tx: VecDeque::new(), rx: VecDeque::new() };
        assert(r@ =~= Conn::from_syn(id, flow, *syn, iss, local_mss, now, connect_timeout_us));
        r
    }

    /// The connection that the host opens towards the guest: the SYN leaves.
    pub fn connect(
        id: ConnId,
        flow: Flow,
        iss: u32,
        local_mss: u16,
        now: VirtualTime,
        connect_timeout_us: u64,
        fx: &mut Effects,
    ) -> (r: TcpConn)
        ensures
            (r@, effects(*final(fx))) == Conn::towards_guest(
                id,
                flow,
                iss,
                local_mss,
                now,
                connect_timeout_us,
            ).send_syn(effects(*old(fx)), now, TCP_SYN),
            final(fx).log == old(fx).log,
            r@.wf(),
    {
        let t = Tcb::empty(id, flow, iss, local_mss, now.after(connect_timeout_us));
        let mut r = TcpConn { t, tx: VecDeque::new(), rx: VecDeque::new() };
        assert(r@ =~= Conn::towards_guest(id, flow, iss, local_mss, now, connect_timeout_us));
        r.syn_out(fx, now, TCP_SYN);
        r
    }

    pub fn is_closed(&self) -> (r: bool)
        ensures
            r == (self.t.state == State::Closed),
    {
        self.t.state == State::Closed
    }

    fn window(&self) -> (r: u32)
        requires
            self@.wf(),
        ensures
            r == self@.rcv_wnd(),
            r <= 65_535,
    {
        (RX_CAPACITY - self.rx.len()) as u32
    }

    fn emit_out(&mut self, fx: &mut Effects, seq: u32, flags: u8, payload: Vec<u8>)
        requires
            old(self)@.wf(),
        ensures
            final(self)@ == old(self)@.announced(),
            final(self)@.wf(),
            final(fx).log == old(fx).log,
            segs(final(fx).out@) == segs(old(fx).out@).push(
                old(self)@.segment(seq, flags, payload@),
            ),
    {
        let window: u32 = self.window();
        self.t.adv_edge = seq_add(self.t.rcv_nxt, window);
        self.t.ack_pending = false;
        let mss: Option<u16> = if flags & TCP_SYN != 0 { Some(self.t.local_mss) } else { None };
        push_segment(
            &mut fx.out,
            Segment { seq, ack: self.t.rcv_nxt, flags, window: window as u16, mss, payload },
        );
    }

    /// A segment without data leaves.
    fn emit_empty(&mut self, fx: &mut Effects, seq: u32, flags: u8)
        requires
            old(self)@.wf(),
        ensures
            final(self)@ == old(self)@.announced(),
            final(self)@.wf(),
            final(fx).log == old(fx).log,
            segs(final(fx).out@) == segs(old(fx).out@).push(
                old(self)@.segment(seq, flags, Seq::empty()),
            ),
    {
        let none: Vec<u8> = Vec::new();
        assert(none@ =~= Seq::<u8>::empty());
        self.emit_out(fx, seq, flags, none);
    }

    fn syn_out(&mut self, fx: &mut Effects, now: VirtualTime, flags: u8)
        requires
            old(self)@.wf(),
        ensures
            (final(self)@, effects(*final(fx))) == old(self)@.send_syn(
                effects(*old(fx)),
                now,
                flags,
            ),
            final(self)@.wf(),
            final(fx).log == old(fx).log,
    {
        let iss: u32 = self.t.iss;
        self.emit_empty(fx, iss, flags);
        self.t.snd_nxt = seq_add(self.t.iss, 1);
        self.t.snd_max = self.t.snd_nxt;
        self.t.arm_rtx(now);
    }

    fn finish<U: Upstream>(
        &mut self,
        now: VirtualTime,
        up: &mut U,
        fx: &mut Effects,
        reason: CloseReason,
        reset: bool,
    )
        ensures
            (final(self)@, world(*final(up), *final(fx))) == old(self)@.finish::<U>(
                world(*old(up), *old(fx)),
                now,
                reason,
                reset,
            ),
            old(self)@.wf() ==> final(self)@.wf(),
            final(self)@.t.state == State::Closed,
    {
        if self.t.state == State::Closed {
            return;
        }
        self.t.state = State::Closed;
        self.t.rtx_deadline = None;
        self.t.close_reason = Some(reason);
        push_event(
            &mut fx.log,
            now,
            EventKind::TcpClosed {
                id: self.t.id,
                reason,
                bytes_to_remote: self.t.bytes_to_remote,
                bytes_to_guest: self.t.bytes_to_guest,
            },
        );
        up.tcp_close(now, self.t.id, reset);
    }

    /// The segment has something in the receive window.
    fn is_acceptable(&self, h: &TcpHeader, len: usize) -> (r: bool)
        requires
            self@.wf(),
            len <= 65_535,
        ensures
            r == self@.acceptable(*h, len as nat),
    {
        let syn: u32 = if h.has(TCP_SYN) { 1 } else { 0 };
        let fin: u32 = if h.has(TCP_FIN) { 1 } else { 0 };
        let seg_len: u32 = len as u32 + syn + fin;
        let wnd: u32 = self.window();
        if seg_len == 0 {
            if wnd == 0 {
                h.seq == self.t.rcv_nxt
            } else {
                self.within_window(h.seq, wnd)
            }
        } else if wnd == 0 {
            false
        } else {
            self.within_window(h.seq, wnd) || self.within_window(
                seq_add(h.seq, seg_len - 1),
                wnd,
            )
        }
    }

    fn within_window(&self, s: u32, wnd: u32) -> (r: bool)
        requires
            wnd == self@.rcv_wnd(),
        ensures
            r == self@.in_window(s),
    {
        seq_le(self.t.rcv_nxt, s) && seq_lt(s, seq_add(self.t.rcv_nxt, wnd))
    }

    /// The RST that answers an ACK of something that does not exist.
    fn reset_out(fx: &mut Effects, seq: u32)
        ensures
            final(fx).log == old(fx).log,
            segs(final(fx).out@) == segs(old(fx).out@).push(bare_reset(seq)),
    {
        let none: Vec<u8> = Vec::new();
        assert(none@ =~= Seq::<u8>::empty());
        push_segment(
            &mut fx.out,
            Segment { seq, ack: 0, flags: TCP_RST, window: 0, mss: None, payload: none },
        );
    }

    fn input_syn_sent<U: Upstream>(
        &mut self,
        now: VirtualTime,
        up: &mut U,
        fx: &mut Effects,
        h: &TcpHeader,
    )
        requires
            old(self)@.wf(),
            old(self)@.t.state == State::SynSent,
        ensures
            (final(self)@, world(*final(up), *final(fx))) == old(self)@.syn_sent_input::<U>(
                world(*old(up), *old(fx)),
                now,
                *h,
            ),
            final(self)@.wf(),
    {
        let ack_ok: bool = h.has(TCP_ACK) && h.ack == self.t.snd_nxt;
        if h.has(TCP_RST) {
            if ack_ok {
                self.finish(now, up, fx, CloseReason::Refused, true);
            }
        } else if h.has(TCP_ACK) && !ack_ok {
            Self::reset_out(fx, h.ack);
        } else if h.has(TCP_SYN) && ack_ok {
            let mss: u32 = Tcb::mss_agreed(h.mss, self.t.local_mss);
            self.t.state = State::Established;
            self.t.mss = mss;
            self.t.cwnd = 10 * mss;
            self.t.snd_una = h.ack;
            self.t.snd_wnd = h.window as u32;
            self.t.snd_wl1 = h.seq;
            self.t.snd_wl2 = h.ack;
            self.t.irs = h.seq;
            self.t.rcv_nxt = seq_add(h.seq, 1);
            self.t.rto = self.t.rto_base;
            self.t.rtx_deadline = None;
            self.t.retries = 0;
            self.t.ack_pending = true;
            push_event(&mut fx.log, now, EventKind::TcpEstablished { id: self.t.id });
        }
    }

    fn take_new_ack(&mut self, now: VirtualTime, ack: u32)
        requires
            old(self)@.wf(),
        ensures
            final(self)@ == old(self)@.new_ack(now, ack),
            final(self)@.wf(),
    {
        let mut acked: u32 = seq_sub(ack, self.t.snd_una);
        if self.t.snd_una == self.t.iss {
            acked = acked.saturating_sub(1);
        }
        if let Some(f) = self.t.fin_seq {
            if seq_lt(f, ack) {
                acked = acked.saturating_sub(1);
            }
        }
        let held: usize = self.tx.len();
        let n: usize = if (acked as usize) <= held { acked as usize } else { held };
        assert(n == self@.acked_bytes(ack));
        drop_front(&mut self.tx, n);
        let cwnd: u32 = self.t.cwnd_after(n);
        if let Some(s) = self.t.rtt_sample {
            if seq_le(s.seq, ack) {
                let r: u64 = now.0.saturating_sub(s.at.0);
                self.t.rtt_update(r);
                self.t.rtt_sample = None;
            }
        }
        self.t.snd_una = ack;
        if seq_lt(self.t.snd_nxt, ack) {
            self.t.snd_nxt = ack;
        }
        self.t.dup_acks = 0;
        self.t.rto = self.t.rto_base;
        self.t.cwnd = cwnd;
        self.t.rtx_deadline = if self.t.snd_una != self.t.snd_max {
            Some(now.after(self.t.rto))
        } else {
            None
        };
    }

    fn resend_first(&mut self, fx: &mut Effects)
        requires
            old(self)@.wf(),
        ensures
            (final(self)@, effects(*final(fx))) == old(self)@.fast_retransmit(effects(*old(fx))),
            final(fx).log == old(fx).log,
            final(self)@.wf(),
    {
        let flight: u32 = self.t.in_flight_now();
        let twice: u32 = 2 * self.t.mss;
        self.t.ssthresh = if flight / 2 >= twice { flight / 2 } else { twice };
        self.t.cwnd = self.t.ssthresh;
        self.t.rtt_sample = None;
        let held: usize = self.tx.len();
        let sent: usize = seq_sub(self.t.snd_max, self.t.snd_una) as usize;
        let m: usize = if self.t.mss as usize <= held { self.t.mss as usize } else { held };
        let n: usize = if m <= sent { m } else { sent };
        if n == 0 {
            return;
        }
        let payload: Vec<u8> = copy_range(&self.tx, 0, n);
        assert(payload@ =~= self.tx@.take(n as int));
        let seq: u32 = self.t.snd_una;
        self.emit_out(fx, seq, TCP_ACK, payload);
    }

    fn take_ack(&mut self, now: VirtualTime, fx: &mut Effects, h: &TcpHeader, len: usize)
        requires
            old(self)@.wf(),
        ensures
            (final(self)@, effects(*final(fx))) == old(self)@.ack_taken(
                effects(*old(fx)),
                now,
                *h,
                len as nat,
            ),
            final(fx).log == old(fx).log,
            final(self)@.wf(),
    {
        reveal(Conn::ack_taken);
        if seq_le(self.t.snd_una, h.ack) {
            self.t.retries = 0;
        }
        if seq_lt(self.t.snd_una, h.ack) {
            self.take_new_ack(now, h.ack);
        } else if h.ack == self.t.snd_una && len == 0 && !h.has(TCP_FIN) && h.window as u32
            == self.t.snd_wnd && self.t.snd_wnd != 0 && self.t.snd_max != self.t.snd_una {
            self.t.dup_acks = seq_add(self.t.dup_acks, 1);
            if self.t.dup_acks == 3 {
                self.resend_first(fx);
            }
        }
    }

    fn input_handshake(&mut self, now: VirtualTime, fx: &mut Effects, h: &TcpHeader) -> (v: Verdict)
        requires
            old(self)@.wf(),
            old(self).t.state != State::Closed,
        ensures
            (final(self)@, effects(*final(fx)), v) == old(self)@.handshake_ack(
                effects(*old(fx)),
                now,
                *h,
            ),
            final(self)@.wf(),
    {
        if seq_lt(self.t.snd_una, h.ack) && seq_le(h.ack, self.t.snd_max) {
            self.t.state = State::Established;
            self.t.snd_wnd = h.window as u32;
            self.t.snd_wl1 = h.seq;
            self.t.snd_wl2 = h.ack;
            push_event(&mut fx.log, now, EventKind::TcpEstablished { id: self.t.id });
            Verdict::GoOn
        } else {
            Self::reset_out(fx, h.ack);
            Verdict::Stop
        }
    }

    fn take_window(&mut self, h: &TcpHeader)
        requires
            old(self)@.wf(),
        ensures
            final(self)@ == old(self)@.window_taken(*h),
            final(self)@.wf(),
    {
        if seq_lt(self.t.snd_wl1, h.seq) || (self.t.snd_wl1 == h.seq && seq_le(
            self.t.snd_wl2,
            h.ack,
        )) {
            self.t.snd_wnd = h.window as u32;
            self.t.snd_wl1 = h.seq;
            self.t.snd_wl2 = h.ack;
        }
    }

    fn input_fin_ack<U: Upstream>(&mut self, now: VirtualTime, up: &mut U, fx: &mut Effects) -> (v:
        Verdict)
        requires
            old(self)@.wf(),
        ensures
            (final(self)@, world(*final(up), *final(fx)), v) == old(self)@.fin_acked::<U>(
                world(*old(up), *old(fx)),
                now,
            ),
            final(self)@.wf(),
    {
        if self.t.state == State::FinWait1 {
            self.t.state = State::FinWait2;
        } else if self.t.state == State::Closing {
            self.t.enter_time_wait(now);
        } else if self.t.state == State::LastAck {
            self.finish(now, up, fx, CloseReason::Normal, false);
            return Verdict::Stop;
        }
        Verdict::GoOn
    }

    fn input_ack<U: Upstream>(
        &mut self,
        now: VirtualTime,
        up: &mut U,
        fx: &mut Effects,
        h: &TcpHeader,
        len: usize,
    ) -> (v: Verdict)
        requires
            old(self)@.wf(),
        ensures
            (final(self)@, world(*final(up), *final(fx)), v) == old(self)@.ack_input::<U>(
                world(*old(up), *old(fx)),
                now,
                *h,
                len as nat,
            ),
            final(self)@.wf(),
    {
        if self.t.state == State::SynReceived {
            match self.input_handshake(now, fx, h) {
                Verdict::Stop => {
                    return Verdict::Stop;
                },
                Verdict::GoOn => {},
            }
        }
        if seq_lt(self.t.snd_max, h.ack) {
            self.t.ack_pending = true;
            return Verdict::Stop;
        }
        let fin: bool = seq_lt(self.t.snd_una, h.ack) && (match self.t.fin_seq {
            Some(f) => seq_lt(f, h.ack),
            None => false,
        });
        let ghost c1 = self@;
        let ghost w1 = world(*up, *fx);
        let ghost e1 = effects(*fx);
        self.take_ack(now, fx, h, len);
        proof {
            lemma_ack_taken_effects(c1, w1, e1, now, *h, len as nat);
        }
        self.take_window(h);
        if fin {
            self.input_fin_ack(now, up, fx)
        } else {
            Verdict::GoOn
        }
    }

    fn is_receiving(&self) -> (r: bool)
        ensures
            r == self@.takes_data(),
    {
        self.t.state == State::Established || self.t.state == State::FinWait1 || self.t.state
            == State::FinWait2
    }

    /// Takes the data of a segment; returns whether nothing of it is missing.
    fn input_data(
        &mut self,
        now: VirtualTime,
        fx: &mut Effects,
        h: &TcpHeader,
        payload: &[u8],
    ) -> (complete: bool)
        requires
            old(self)@.wf(),
            payload@.len() <= 65_535,
        ensures
            complete == old(self)@.data_complete(*h, payload@),
            (final(self)@, effects(*final(fx))) == old(self)@.data_input(
                effects(*old(fx)),
                now,
                *h,
                payload@,
            ),
            final(self)@.wf(),
    {
        if payload.len() == 0 || !self.is_receiving() {
            return true;
        }
        self.t.ack_pending = true;
        if seq_lt(self.t.rcv_nxt, h.seq) {
            return false;
        }
        let ahead: usize = seq_sub(self.t.rcv_nxt, h.seq) as usize;
        let skip: usize = if ahead <= payload.len() { ahead } else { payload.len() };
        let fresh: usize = payload.len() - skip;
        let wnd: usize = self.window() as usize;
        let n: usize = if fresh <= wnd { fresh } else { wnd };
        assert(n == old(self)@.taken_len(*h, payload@));
        if n > 0 {
            let part: &[u8] = vstd::slice::slice_subrange(payload, skip, skip + n);
            queue_bytes(&mut self.rx, part);
            assert(part@ =~= old(self)@.new_data(*h, payload@).take(n as int));
            self.t.rcv_nxt = seq_add(self.t.rcv_nxt, n as u32);
            self.t.bytes_to_remote = self.t.bytes_to_remote.wrapping_add(n as u64);
            push_event(
                &mut fx.log,
                now,
                EventKind::TcpData { id: self.t.id, dir: Direction::ToRemote, len: n },
            );
        }
        n == fresh
    }

    fn input_fin(&mut self, now: VirtualTime)
        requires
            old(self)@.wf(),
        ensures
            final(self)@ == old(self)@.fin_input(now),
            final(self)@.wf(),
            final(self).t.state == State::Closed <==> old(self).t.state == State::Closed,
    {
        let first: bool = self.is_receiving();
        if self.t.state == State::Established {
            self.t.state = State::CloseWait;
        } else if self.t.state == State::FinWait1 {
            self.t.state = State::Closing;
        } else if self.t.state == State::FinWait2 {
            self.t.enter_time_wait(now);
        }
        if first {
            self.t.rcv_nxt = seq_add(self.t.rcv_nxt, 1);
            self.t.rx_fin = true;
        }
        self.t.ack_pending = true;
    }

    fn input_text(&mut self, now: VirtualTime, fx: &mut Effects, h: &TcpHeader, payload: &[u8])
        requires
            old(self)@.wf(),
            payload@.len() <= 65_535,
        ensures
            (final(self)@, effects(*final(fx))) == old(self)@.text_input(
                effects(*old(fx)),
                now,
                *h,
                payload@,
            ),
            final(self)@.wf(),
    {
        let complete: bool = self.input_data(now, fx, h, payload);
        if h.has(TCP_FIN) && complete && seq_add(h.seq, payload.len() as u32)
            == self.t.rcv_nxt {
            self.input_fin(now);
        }
    }

    /// A segment from the guest for this connection.
    pub fn input<U: Upstream>(
        &mut self,
        now: VirtualTime,
        up: &mut U,
        fx: &mut Effects,
        h: &TcpHeader,
        payload: &[u8],
    )
        requires
            old(self)@.wf(),
            payload@.len() <= 65_535,
        ensures
            (final(self)@, world(*final(up), *final(fx))) == old(self)@.input::<U>(
                world(*old(up), *old(fx)),
                now,
                *h,
                payload@,
            ),
            final(self)@.wf(),
    {
        if self.t.state == State::Closed {
            return;
        }
        if self.t.state == State::Connecting {
            if h.has(TCP_RST) && (h.seq == self.t.rcv_nxt || h.seq == self.t.irs) {
                self.finish(now, up, fx, CloseReason::GuestReset, true);
            }
            return;
        }
        if self.t.state == State::SynSent {
            self.input_syn_sent(now, up, fx, h);
            return;
        }
        if self.t.state == State::SynReceived && h.has(TCP_SYN) && !h.has(TCP_ACK) && h.seq
            == self.t.irs {
            self.syn_out(fx, now, TCP_SYN | TCP_ACK);
            return;
        }
        if !self.is_acceptable(h, payload.len()) {
            if !h.has(TCP_RST) {
                self.t.ack_pending = true;
                if self.t.state == State::TimeWait && h.has(TCP_FIN) {
                    self.t.time_wait_deadline = now.after(TIME_WAIT_US);
                }
            }
            return;
        }
        if h.has(TCP_RST) && h.seq == self.t.rcv_nxt {
            self.finish(now, up, fx, CloseReason::GuestReset, true);
            return;
        }
        if h.has(TCP_RST) || h.has(TCP_SYN) {
            self.t.ack_pending = true;
            return;
        }
        if !h.has(TCP_ACK) {
            return;
        }
        match self.input_ack(now, up, fx, h, payload.len()) {
            Verdict::Stop => {
                return;
            },
            Verdict::GoOn => {},
        }
        self.input_text(now, fx, h, payload);
    }

    /// Closes at once a connection in TIME-WAIT (the guest opens the same
    /// quadruple again with a new SYN).
    pub fn end_time_wait<U: Upstream>(&mut self, now: VirtualTime, up: &mut U, fx: &mut Effects)
        ensures
            (final(self)@, world(*final(up), *final(fx))) == (if old(self)@.t.state
                == State::TimeWait {
                old(self)@.finish::<U>(
                    world(*old(up), *old(fx)),
                    now,
                    CloseReason::Normal,
                    false,
                )
            } else {
                (old(self)@, world(*old(up), *old(fx)))
            }),
            old(self)@.wf() ==> final(self)@.wf(),
    {
        if self.t.state == State::TimeWait {
            self.finish(now, up, fx, CloseReason::Normal, false);
        }
    }

    /// What the timers have to do. To be called before `process`.
    pub fn on_timer<U: Upstream>(&mut self, now: VirtualTime, up: &mut U, fx: &mut Effects)
        requires
            old(self)@.wf(),
        ensures
            (final(self)@, world(*final(up), *final(fx))) == old(self)@.on_timer::<U>(
                world(*old(up), *old(fx)),
                now,
            ),
            final(self)@.wf(),
    {
        if self.t.state == State::Closed {
            return;
        }
        if self.t.state == State::TimeWait && now.0 >= self.t.time_wait_deadline.0 {
            self.finish(now, up, fx, CloseReason::Normal, false);
            return;
        }
        if self.t.state == State::SynSent && now.0 >= self.t.connect_deadline.0 {
            self.finish(now, up, fx, CloseReason::Timeout, true);
            return;
        }
        let deadline: VirtualTime = match self.t.rtx_deadline {
            Some(d) => d,
            None => {
                return;
            },
        };
        if now.0 < deadline.0 {
            return;
        }
        self.t.rtx_deadline = None;
        let unsent: bool = self.tx.len() > self.t.in_flight_now() as usize;
        if self.t.snd_una == self.t.snd_max && !(self.t.snd_wnd == 0 && unsent) {
            return;
        }
        if self.t.retries >= MAX_RETRIES {
            let seq: u32 = self.t.snd_max;
            self.emit_empty(fx, seq, TCP_RST | TCP_ACK);
            self.finish(now, up, fx, CloseReason::Timeout, true);
            self.t.retries = self.t.retries + 1;
            return;
        }
        self.t.retries = self.t.retries + 1;
        self.resend(now, fx);
    }

    fn resend(&mut self, now: VirtualTime, fx: &mut Effects)
        requires
            old(self)@.wf(),
            old(self)@.t.state != State::Closed,
        ensures
            (final(self)@, effects(*final(fx))) == old(self)@.retransmit(effects(*old(fx)), now),
            final(self)@.wf(),
            final(fx).log == old(fx).log,
    {
        self.t.rto = if self.t.rto * 2 <= RTO_MAX { self.t.rto * 2 } else { RTO_MAX };
        self.t.rtt_sample = None;
        if self.t.snd_una != self.t.snd_max {
            let half: u32 = seq_sub(self.t.snd_max, self.t.snd_una) / 2;
            let twice: u32 = 2 * self.t.mss;
            self.t.ssthresh = if half >= twice { half } else { twice };
            self.t.cwnd = self.t.mss;
        }
        if self.t.state == State::SynReceived {
            self.syn_out(fx, now, TCP_SYN | TCP_ACK);
            return;
        }
        if self.t.state == State::SynSent {
            self.syn_out(fx, now, TCP_SYN);
            return;
        }
        self.t.snd_nxt = self.t.snd_una;
        if self.t.snd_wnd == 0 && self.tx.len() > 0 {
            let seq: u32 = seq_sub(self.t.snd_una, 1);
            self.emit_empty(fx, seq, TCP_ACK);
        }
        self.t.arm_rtx(now);
    }

    fn deliver_rx<U: Upstream>(&mut self, now: VirtualTime, up: &mut U)
        requires
            old(self)@.wf(),
        ensures
            forall|w: World<U::Model>|
                w.up == old(up).model() ==> {
                    let r = #[trigger] old(self)@.deliver::<U>(w, now);
                    &&& final(self)@ == r.0
                    &&& r.1 == (World { up: final(up).model(), ..w })
                },
            final(self)@.wf(),
    {
        let held: usize = self.rx.len();
        if held > 0 {
            let chunk: Vec<u8> = copy_range(&self.rx, 0, held);
            assert(chunk@ =~= self.rx@);
            let taken: usize = up.tcp_write(now, self.t.id, chunk.as_slice());
            let n: usize = if taken <= held { taken } else { held };
            drop_front(&mut self.rx, n);
        }
        if self.rx.len() == 0 && self.t.rx_fin && !self.t.shutdown_done {
            self.t.shutdown_done = true;
            up.tcp_shutdown(now, self.t.id);
        }
    }

    fn check_window(&mut self)
        requires
            old(self)@.wf(),
        ensures
            final(self)@ == old(self)@.window_checked(),
            final(self)@.wf(),
    {
        let edge: u32 = seq_add(self.t.rcv_nxt, self.window());
        let threshold: u32 = if self.t.mss <= 32_767 { self.t.mss } else { 32_767 };
        if !self.t.rx_fin && seq_lt(self.t.adv_edge, edge) && seq_sub(edge, self.t.adv_edge)
            >= threshold {
            self.t.ack_pending = true;
        }
    }

    fn fetch_tx<U: Upstream>(&mut self, now: VirtualTime, up: &mut U, fx: &mut Effects) -> (v:
        Verdict)
        requires
            old(self)@.wf(),
        ensures
            (final(self)@, world(*final(up), *final(fx)), v) == old(self)@.fetch::<U>(
                world(*old(up), *old(fx)),
                now,
            ),
            final(self)@.wf(),
    {
        let ghost goal = self@.fetch::<U>(world(*up, *fx), now);
        while self.tx.len() < TX_CAPACITY
            invariant_except_break
                self@.fetch::<U>(world(*up, *fx), now) == goal,
            invariant
                self@.wf(),
                goal == old(self)@.fetch::<U>(world(*old(up), *old(fx)), now),
            ensures
                self@.wf(),
                (self@, world(*up, *fx), Verdict::GoOn) == goal,
            decreases TX_CAPACITY - self.tx@.len(),
        {
            let left: usize = TX_CAPACITY - self.tx.len();
            let room: usize = if left <= READ_CHUNK { left } else { READ_CHUNK };
            let mut buf: Vec<u8> = zeroed(room);
            assert(buf@.len() == self@.read_room());
            match up.tcp_read(now, self.t.id, buf.as_mut_slice()) {
                TcpRead::Data(n) => {
                    if n == 0 {
                        break;
                    }
                    let part: &[u8] = vstd::slice::slice_subrange(buf.as_slice(), 0, n);
                    assert(part@ =~= buf@.take(n as int));
                    queue_bytes(&mut self.tx, part);
                    self.t.bytes_to_guest = self.t.bytes_to_guest.wrapping_add(n as u64);
                    push_event(
                        &mut fx.log,
                        now,
                        EventKind::TcpData { id: self.t.id, dir: Direction::ToGuest, len: n },
                    );
                },
                TcpRead::WouldBlock => {
                    break;
                },
                TcpRead::Eof => {
                    self.t.tx_eof = true;
                    break;
                },
                TcpRead::Reset => {
                    let seq: u32 = self.t.snd_max;
                    self.emit_empty(fx, seq, TCP_RST | TCP_ACK);
                    self.finish(now, up, fx, CloseReason::RemoteReset, true);
                    return Verdict::Stop;
                },
            }
        }
        Verdict::GoOn
    }

    /// Bytes of the next data segment.
    fn sendable(&self) -> (n: usize)
        requires
            self@.wf(),
        ensures
            n == self@.next_len(),
    {
        let in_flight: u32 = self.t.in_flight_now();
        let offset: usize = in_flight as usize;
        if offset >= self.tx.len() {
            return 0;
        }
        let limit: u32 = if self.t.snd_wnd <= self.t.cwnd { self.t.snd_wnd } else { self.t.cwnd };
        let usable: u32 = limit.saturating_sub(in_flight);
        let most: u32 = if self.t.mss <= usable { self.t.mss } else { usable };
        let left: usize = self.tx.len() - offset;
        if most as usize <= left { most as usize } else { left }
    }

    /// Sends one segment of `n` bytes.
    fn send_one(&mut self, now: VirtualTime, fx: &mut Effects, n: usize)
        requires
            old(self)@.wf(),
            0 < n == old(self)@.next_len(),
        ensures
            (final(self)@, effects(*final(fx))) == old(self)@.send_next(effects(*old(fx)), now),
            final(self)@.wf(),
            final(fx).log == old(fx).log,
            final(self)@.t.state == old(self)@.t.state,
    {
        let offset: usize = self.t.in_flight_now() as usize;
        let payload: Vec<u8> = copy_range(&self.tx, offset, offset + n);
        let flags: u8 = if offset + n == self.tx.len() { TCP_ACK | TCP_PSH } else { TCP_ACK };
        let seq: u32 = self.t.snd_nxt;
        self.emit_out(fx, seq, flags, payload);
        let end: u32 = seq_add(seq, n as u32);
        if self.t.rtt_sample.is_none() && seq == self.t.snd_max {
            self.t.rtt_sample = Some(RttSample { seq: end, at: now });
        }
        self.t.snd_nxt = end;
        if seq_lt(self.t.snd_max, end) {
            self.t.snd_max = end;
        }
        self.t.arm_rtx(now);
    }

    fn send_segments(&mut self, now: VirtualTime, fx: &mut Effects)
        requires
            old(self)@.wf(),
        ensures
            (final(self)@, effects(*final(fx))) == old(self)@.send_data(effects(*old(fx)), now),
            final(self)@.wf(),
            final(fx).log == old(fx).log,
            final(self)@.t.state == old(self)@.t.state,
    {
        let ghost goal = self@.send_data(effects(*fx), now);
        let mut n: usize = self.sendable();
        while n > 0
            invariant
                self@.wf(),
                n == self@.next_len(),
                fx.log == old(fx).log,
                self@.t.state == old(self)@.t.state,
                self@.send_data(effects(*fx), now) == goal,
            decreases self@.tx.len() - self@.t.in_flight(),
        {
            proof {
                lemma_send_next_advances(self@, effects(*fx), now);
            }
            self.send_one(now, fx, n);
            n = self.sendable();
        }
    }

    fn send_fin_out(&mut self, now: VirtualTime, fx: &mut Effects)
        requires
            old(self)@.wf(),
            old(self)@.t.state != State::Closed,
        ensures
            (final(self)@, effects(*final(fx))) == old(self)@.send_fin(effects(*old(fx)), now),
            final(self)@.wf(),
            final(fx).log == old(fx).log,
    {
        if self.t.fin_seq.is_none() {
            self.t.state = if self.t.state == State::Established {
                State::FinWait1
            } else {
                State::LastAck
            };
        }
        let seq: u32 = self.t.snd_nxt;
        self.t.fin_seq = Some(seq);
        self.emit_empty(fx, seq, TCP_FIN | TCP_ACK);
        let end: u32 = seq_add(seq, 1);
        self.t.snd_nxt = end;
        if seq_lt(self.t.snd_max, end) {
            self.t.snd_max = end;
        }
        self.t.arm_rtx(now);
    }

    /// Data, FIN, and an ACK if one is still owed.
    fn flush_out(&mut self, now: VirtualTime, fx: &mut Effects)
        requires
            old(self)@.wf(),
        ensures
            (final(self)@, effects(*final(fx))) == old(self)@.flush(effects(*old(fx)), now),
            final(self)@.wf(),
            final(fx).log == old(fx).log,
    {
        self.transmit(now, fx);
        if self.t.ack_pending {
            let seq: u32 = self.t.snd_nxt;
            self.emit_empty(fx, seq, TCP_ACK);
        }
    }

    fn transmit(&mut self, now: VirtualTime, fx: &mut Effects)
        requires
            old(self)@.wf(),
        ensures
            (final(self)@, effects(*final(fx))) == old(self)@.transmit(effects(*old(fx)), now),
            final(self)@.wf(),
            final(fx).log == old(fx).log,
    {
        let sending: bool = self.t.state == State::Established || self.t.state == State::CloseWait
            || self.t.state == State::FinWait1 || self.t.state == State::LastAck || self.t.state
            == State::Closing;
        if !sending {
            return;
        }
        self.send_segments(now, fx);
        if self.t.tx_eof && self.t.in_flight_now() as usize == self.tx.len() {
            let due: bool = match self.t.fin_seq {
                None => self.t.state == State::Established || self.t.state == State::CloseWait,
                Some(f) => f == self.t.snd_nxt,
            };
            if due {
                self.send_fin_out(now, fx);
            }
        }
        if self.t.snd_wnd == 0 && self.t.snd_una == self.t.snd_max && self.tx.len()
            > self.t.in_flight_now() as usize {
            self.t.arm_rtx(now);
        }
    }

    fn exchange_upstream<U: Upstream>(&mut self, now: VirtualTime, up: &mut U, fx: &mut Effects)
        requires
            old(self)@.wf(),
        ensures
            (final(self)@, world(*final(up), *final(fx))) == old(self)@.exchange::<U>(
                world(*old(up), *old(fx)),
                now,
            ),
            final(self)@.wf(),
    {
        let ghost w0 = world(*up, *fx);
        let ghost c0 = self@;
        self.deliver_rx(now, up);
        assert((self@, world(*up, *fx)) == c0.deliver::<U>(w0, now));
        self.check_window();
        let reading: bool = (self.t.state == State::SynReceived || self.t.state
            == State::Established || self.t.state == State::CloseWait) && !self.t.tx_eof;
        if reading {
            match self.fetch_tx(now, up, fx) {
                Verdict::Stop => {
                    return;
                },
                Verdict::GoOn => {},
            }
        }
        let ghost c3 = self@;
        let ghost w3 = world(*up, *fx);
        let ghost e3 = effects(*fx);
        self.flush_out(now, fx);
        proof {
            lemma_flush_effects(c3, w3, e3, now);
        }
    }

    /// Exchange with the upstream and transmission: to be called after every
    /// `input` and at every poll.
    pub fn process<U: Upstream>(&mut self, now: VirtualTime, up: &mut U, fx: &mut Effects)
        requires
            old(self)@.wf(),
        ensures
            (final(self)@, world(*final(up), *final(fx))) == old(self)@.process::<U>(
                world(*old(up), *old(fx)),
                now,
            ),
            final(self)@.wf(),
    {
        if self.t.state == State::Closed {
            return;
        }
        if self.t.state == State::Connecting {
            match up.tcp_status(now, self.t.id) {
                TcpStatus::Connected => {
                    self.t.state = State::SynReceived;
                    self.syn_out(fx, now, TCP_SYN | TCP_ACK);
                },
                TcpStatus::Refused => {
                    self.emit_empty(fx, 0, TCP_RST | TCP_ACK);
                    self.finish(now, up, fx, CloseReason::Refused, true);
                    return;
                },
                TcpStatus::Pending => {
                    if now.0 >= self.t.connect_deadline.0 {
                        self.emit_empty(fx, 0, TCP_RST | TCP_ACK);
                        self.finish(now, up, fx, CloseReason::Timeout, true);
                    }
                    return;
                },
            }
        }
        self.exchange_upstream(now, up, fx);
    }

    /// The host breaks the connection.
    pub fn abort<U: Upstream>(&mut self, now: VirtualTime, up: &mut U, fx: &mut Effects)
        requires
            old(self)@.wf(),
        ensures
            (final(self)@, world(*final(up), *final(fx))) == old(self)@.aborted::<U>(
                world(*old(up), *old(fx)),
                now,
            ),
            final(self)@.wf(),
    {
        if self.t.state == State::Closed {
            return;
        }
        if self.t.state != State::SynSent {
            let seq: u32 = self.t.snd_max;
            self.emit_empty(fx, seq, TCP_RST | TCP_ACK);
        }
        self.finish(now, up, fx, CloseReason::RemoteReset, true);
    }

    /// When `on_timer` has something to do next.
    pub fn next_deadline(&self) -> (r: Option<VirtualTime>)
        ensures
            r == self@.next_deadline(),
    {
        match self.t.state {
            State::Closed => None,
            State::Connecting => Some(self.t.connect_deadline),
            State::SynSent => match self.t.rtx_deadline {
                Some(d) => if d.0 <= self.t.connect_deadline.0 {
                    Some(d)
                } else {
                    Some(self.t.connect_deadline)
                },
                None => Some(self.t.connect_deadline),
            },
            State::TimeWait => Some(self.t.time_wait_deadline),
            _ => self.t.rtx_deadline,
        }
    }
}

} // verus!
