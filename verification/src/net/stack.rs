//! The virtual gateway: it sorts the guest's frames and produces the answers.
use vstd::prelude::*;
use std::collections::VecDeque;
use crate::net::addr::{ConnId, Flow, Ipv4Addr, Mac, SocketAddrV4, VirtualTime};
use crate::net::dhcp;
use crate::net::dns;
use crate::net::events::{facts, push_event, CloseReason, Direction, Event, EventKind, NetEvent};
use crate::net::flows::FlowIndex;
use crate::net::gateway::{mixed, udp_drained, Net, NetConfig, Stats, Step, UdpFlow};
use crate::net::hostfwd::{Ends, HostEnd, HostSide, FIRST_EPHEMERAL_PORT};
use crate::net::tcp::{segs, world, Conn, Effects, Seg, Segment, TcpConn};
use crate::net::upstream::Upstream;
use crate::net::wire;
use crate::net::wire::{TcpHeader, TcpOut};
use crate::table::{keyed, put, rank, Table};

verus! {

/// The host's side of the network, with its upstream.
///
/// Typical use from the platform: `receive` for every frame that the guest
/// transmits, `poll` when `next_deadline` expires or when the upstream has new
/// data, and `pop_frame` to hand the frames produced to the guest.
#[derive(Debug)]
pub struct Stack<U: Upstream> {
    pub config: NetConfig,
    pub upstream: U,
    /// The event log, and the segments of the connection that is acting.
    pub fx: Effects,
    pub stats: Stats,
    pub guest_mac: Option<Mac>,
    pub out: VecDeque<Vec<u8>>,
    pub tcp: Table<TcpConn>,
    pub tcp_index: FlowIndex,
    pub udp: Table<UdpFlow>,
    pub udp_index: FlowIndex,
    pub host: HostSide,
    pub next_id: ConnId,
    pub ip_ident: u16,
}

pub open spec fn frames(s: Seq<Vec<u8>>) -> Seq<Seq<u8>> {
    s.map_values(|f: Vec<u8>| f@)
}

/// What is done with a connection.
pub enum ConnOp<'a> {
    Poll,
    Input(&'a TcpHeader, &'a [u8]),
    EndTimeWait,
    Abort,
}

impl<'a> View for ConnOp<'a> {
    type V = Step;

    open spec fn view(&self) -> Step {
        match *self {
            ConnOp::Poll => Step::Poll,
            ConnOp::Input(h, payload) => Step::Input { h: *h, payload: payload@ },
            ConnOp::EndTimeWait => Step::EndTimeWait,
            ConnOp::Abort => Step::Abort,
        }
    }
}

fn run_op<V: Upstream>(
    c: &mut TcpConn,
    now: VirtualTime,
    up: &mut V,
    fx: &mut Effects,
    op: &ConnOp<'_>,
)
    requires
        old(c)@.wf(),
        op matches ConnOp::Input(_, payload) ==> payload@.len() <= 65_535,
    ensures
        (final(c)@, world(*final(up), *final(fx))) == old(c)@.stepped::<V>(
            world(*old(up), *old(fx)),
            now,
            op@,
        ),
        final(c)@.wf(),
{
    match op {
        ConnOp::Poll => {
            c.on_timer(now, up, fx);
            c.process(now, up, fx);
        },
        ConnOp::Input(h, payload) => {
            c.input(now, up, fx, h, payload);
            c.process(now, up, fx);
        },
        ConnOp::EndTimeWait => {
            c.end_time_wait(now, up, fx);
        },
        ConnOp::Abort => {
            c.abort(now, up, fx);
        },
    }
}

fn mix(z: u64) -> (r: u64)
    ensures
        r == mixed(z),
{
    let a: u64 = z.wrapping_add(0x9e37_79b9_7f4a_7c15);
    let b: u64 = (a ^ (a >> 30)).wrapping_mul(0xbf58_476d_1ce4_e5b9);
    let c: u64 = (b ^ (b >> 27)).wrapping_mul(0x94d0_49bb_1331_11eb);
    c ^ (c >> 31)
}

impl NetConfig {
    pub fn is_gateway_addr(&self, ip: Ipv4Addr) -> (r: bool)
        ensures
            r == self.is_gateway(ip),
    {
        ip == self.gateway_ip || ip == self.dns_ip
    }

    pub(crate) fn is_outside(&self, ip: Ipv4Addr) -> (r: bool)
        ensures
            r == self.is_external(ip),
    {
        let m: u32 = self.netmask.bits;
        ip.bits & m != self.gateway_ip.bits & m && !ip.is_broadcast() && !ip.is_multicast()
    }

    pub(crate) fn dns_socket(&self) -> (r: SocketAddrV4)
        ensures
            r == self.dns_endpoint(),
    {
        SocketAddrV4::new(self.dns_ip, 53)
    }

    pub(crate) fn dhcp_lease(&self) -> (r: dhcp::Lease)
        ensures
            r == self.lease(),
    {
        dhcp::Lease {
            server: self.gateway_ip,
            client: self.guest_ip,
            netmask: self.netmask,
            router: self.gateway_ip,
            dns: self.dns_ip,
            lease_secs: self.lease_secs,
        }
    }

    pub(crate) fn initial_seq(&self, id: ConnId) -> (r: u32)
        ensures
            r == self.iss(id),
    {
        (mix(self.seed ^ id.wrapping_mul(0x2545_f491_4f6c_dd1d)) % 0x1_0000_0000) as u32
    }
}

impl Stats {
    pub fn new() -> (r: Stats)
        ensures
            r == (Stats {
                frames_in: 0,
                frames_out: 0,
                malformed: 0,
                bad_checksum: 0,
                not_for_us: 0,
                ipv6: 0,
                fragments: 0,
                ignored: 0,
                udp_dropped: 0,
                tcp_rst_unknown: 0,
            }),
    {
        Stats {
            frames_in: 0,
            frames_out: 0,
            malformed: 0,
            bad_checksum: 0,
            not_for_us: 0,
            ipv6: 0,
            fragments: 0,
            ignored: 0,
            udp_dropped: 0,
            tcp_rst_unknown: 0,
        }
    }
}

/// Sending segments changes only the frames, their count and the IP identifier.
pub proof fn lemma_sent_segments_keeps<M>(s: Net<M>, flow: Flow, list: Seq<Seg>)
    ensures
        ({
            let r = s.sent_segments(flow, list);
            r == (Net { stats: r.stats, out: r.out, ip_ident: r.ip_ident, ..s })
        }),
    decreases list.len(),
{
    if list.len() > 0 {
        lemma_sent_segments_keeps(s, flow, list.drop_last());
    }
}

impl<U: Upstream> View for Stack<U> {
    type V = Net<U::Model>;

    open spec fn view(&self) -> Net<U::Model> {
        Net {
            config: self.config,
            up: self.upstream.model(),
            log: facts(self.fx.log@),
            stats: self.stats,
            guest_mac: self.guest_mac,
            out: frames(self.out@),
            tcp: self.tcp@,
            tcp_index: self.tcp_index@,
            udp: self.udp@,
            udp_index: self.udp_index@,
            host: self.host.model(),
            next_id: self.next_id,
            ip_ident: self.ip_ident,
        }
    }
}

impl<U: Upstream> Stack<U> {
    /// The MTU has room for the headers, and no segment is under way.
    #[verifier::inline]
    pub open spec fn idle(self) -> bool {
        &&& self.config.mtu >= 40
        &&& self.fx.out@.len() == 0
    }

    /// The MTU has room for the headers, every connection is well formed, and no
    /// segment waits to be sent.
    pub open spec fn wf(self) -> bool {
        &&& self.idle()
        &&& forall|i: int| 0 <= i < self@.tcp.len() ==> (#[trigger] self@.tcp[i]).1.wf()
    }

    pub fn new(config: NetConfig, upstream: U) -> (r: Self)
        requires
            config.mtu >= 40,
        ensures
            r.wf(),
            r@ == (Net {
                config,
                up: upstream.model(),
                log: Seq::empty(),
                stats: Stats {
                    frames_in: 0,
                    frames_out: 0,
                    malformed: 0,
                    bad_checksum: 0,
                    not_for_us: 0,
                    ipv6: 0,
                    fragments: 0,
                    ignored: 0,
                    udp_dropped: 0,
                    tcp_rst_unknown: 0,
                },
                guest_mac: None,
                out: Seq::empty(),
                tcp: Seq::empty(),
                tcp_index: Seq::empty(),
                udp: Seq::empty(),
                udp_index: Seq::empty(),
                host: Ends { conns: Seq::empty(), next_port: FIRST_EPHEMERAL_PORT },
                next_id: 1,
                ip_ident: 0,
            }),
    {
        let fx = Effects { log: Vec::new(), out: Vec::new() };
        assert(facts(fx.log@) =~= Seq::<Event>::empty());
        let out: VecDeque<Vec<u8>> = VecDeque::new();
        assert(frames(out@) =~= Seq::<Seq<u8>>::empty());
        Stack {
            config,
            upstream,
            fx,
            stats: Stats::new(),
            guest_mac: None,
            out,
            tcp: Table::new(),
            tcp_index: FlowIndex::new(),
            udp: Table::new(),
            udp_index: FlowIndex::new(),
            host: HostSide::new(),
            next_id: 1,
            ip_ident: 0,
        }
    }

    pub fn config(&self) -> (r: &NetConfig)
        ensures
            *r == self@.config,
    {
        &self.config
    }

    pub fn upstream(&self) -> (r: &U)
        ensures
            *r == self.upstream,
    {
        &self.upstream
    }

    pub fn upstream_mut(&mut self) -> (r: &mut U)
        ensures
            *r == old(self).upstream,
            *final(self) == (Stack { upstream: *final(r), ..*old(self) }),
    {
        &mut self.upstream
    }

    pub fn stats(&self) -> (r: &Stats)
        ensures
            *r == self@.stats,
    {
        &self.stats
    }

    /// MAC of the guest: known from the first frame received on, and brought up to
    /// date by those that follow.
    pub fn guest_mac(&self) -> (r: Option<Mac>)
        ensures
            r == self@.guest_mac,
    {
        self.guest_mac
    }

    /// Log of the events from the start (or from the last `take_events`).
    pub fn events(&self) -> (r: &[NetEvent])
        ensures
            facts(r@) == self@.log,
    {
        self.fx.log.as_slice()
    }

    /// Empties the event log and returns it.
    pub fn take_events(&mut self) -> (r: Vec<NetEvent>)
        ensures
            facts(r@) == old(self)@.log,
            final(self)@ == (Net { log: Seq::empty(), ..old(self)@ }),
            old(self).wf() ==> final(self).wf(),
    {
        let mut r: Vec<NetEvent> = Vec::new();
        assert(facts(r@) =~= Seq::<Event>::empty());
        std::mem::swap(&mut r, &mut self.fx.log);
        r
    }

    /// TCP connections still alive (TIME-WAIT counts).
    pub fn tcp_connections(&self) -> (r: usize)
        ensures
            r == self@.tcp.len(),
    {
        self.tcp.len()
    }

    /// UDP flows still alive.
    pub fn udp_flows(&self) -> (r: usize)
        ensures
            r == self@.udp.len(),
    {
        self.udp.len()
    }

    /// Next frame for the guest.
    pub fn pop_frame(&mut self) -> (r: Option<Vec<u8>>)
        ensures
            match r {
                Some(f) => old(self)@.out.len() > 0 && f@ == old(self)@.out[0] && final(self)@
                    == (Net { out: old(self)@.out.skip(1), ..old(self)@ }),
                None => old(self)@.out.len() == 0 && final(self)@ == old(self)@,
            },
            old(self).wf() ==> final(self).wf(),
    {
        let r: Option<Vec<u8>> = self.out.pop_front();
        proof {
            if r is Some {
                assert(frames(self.out@) =~= old(self)@.out.skip(1));
                assert(old(self)@.out[0] == (r->0)@);
            }
        }
        r
    }

    /// Frames waiting to be handed to the guest.
    pub fn pending_frames(&self) -> (r: usize)
        ensures
            r == self@.out.len(),
    {
        self.out.len()
    }

    // ---- Output -----------------------------------------------------------------

    pub(crate) fn send_eth(&mut self, dst: Mac, ethertype: u16, payload: &[u8])
        requires
            old(self).config.mtu >= 40,
        ensures
            final(self)@ == old(self)@.framed(dst, ethertype, payload@),
            final(self).fx == old(self).fx,
            final(self).config == old(self).config,
            final(self).upstream == old(self).upstream,
            final(self).tcp == old(self).tcp,
    {
        self.stats.frames_out = self.stats.frames_out.wrapping_add(1);
        let f: Vec<u8> = wire::build_eth(dst, self.config.gateway_mac, ethertype, payload);
        self.out.push_back(f);
        assert(frames(self.out@) =~= frames(old(self).out@).push(f@));
    }

    fn dst_mac(&self) -> (r: Mac)
        ensures
            r == self@.guest_dst_mac(),
    {
        match self.guest_mac {
            Some(m) => m,
            None => Mac::broadcast(),
        }
    }

    pub(crate) fn send_ipv4(&mut self, src: Ipv4Addr, dst: Ipv4Addr, proto: u8, payload: &[u8])
        requires
            old(self).config.mtu >= 40,
        ensures
            final(self)@ == old(self)@.sent_ipv4(src, dst, proto, payload@),
            final(self).fx == old(self).fx,
            final(self).config == old(self).config,
            final(self).upstream == old(self).upstream,
            final(self).tcp == old(self).tcp,
    {
        let mac: Mac = self.dst_mac();
        self.send_ipv4_to(mac, src, dst, proto, payload);
    }

    pub(crate) fn send_ipv4_to(&mut self, mac: Mac, src: Ipv4Addr, dst: Ipv4Addr, proto: u8, payload: &[u8])
        requires
            old(self).config.mtu >= 40,
        ensures
            final(self)@ == old(self)@.sent_ipv4_to(mac, src, dst, proto, payload@),
            final(self).fx == old(self).fx,
            final(self).config == old(self).config,
            final(self).upstream == old(self).upstream,
            final(self).tcp == old(self).tcp,
    {
        self.ip_ident = self.ip_ident.wrapping_add(1);
        let packet: Vec<u8> = wire::build_ipv4(src, dst, proto, self.ip_ident, payload);
        self.send_eth(mac, wire::ETHERTYPE_IPV4, packet.as_slice());
    }

    pub(crate) fn send_segment(&mut self, flow: Flow, s: &Segment)
        requires
            old(self).config.mtu >= 40,
        ensures
            final(self)@ == old(self)@.sent_segment(flow, s@),
            final(self).fx == old(self).fx,
            final(self).config == old(self).config,
            final(self).upstream == old(self).upstream,
            final(self).tcp == old(self).tcp,
    {
        let tcp: Vec<u8> = wire::build_tcp(
            &TcpOut {
                src: flow.remote.ip,
                src_port: flow.remote.port,
                dst: flow.guest.ip,
                dst_port: flow.guest.port,
                seq: s.seq,
                ack: s.ack,
                flags: s.flags,
                window: s.window,
                mss: s.mss,
                payload: s.payload.as_slice(),
            },
        );
        self.send_ipv4(flow.remote.ip, flow.guest.ip, wire::PROTO_TCP, tcp.as_slice());
    }

    /// Sends the segments of the connection that has acted.
    pub(crate) fn emit_segments(&mut self, flow: Flow)
        requires
            old(self).config.mtu >= 40,
        ensures
            final(self)@ == old(self)@.sent_segments(flow, segs(old(self).fx.out@)),
            final(self).fx.out@.len() == 0,
            final(self).config == old(self).config,
    {
        let mut list: Vec<Segment> = Vec::new();
        std::mem::swap(&mut list, &mut self.fx.out);
        let mut i: usize = 0;
        let ghost s0 = self@;
        assert(segs(list@).take(0) =~= Seq::empty());
        while i < list.len()
            invariant
                i <= list@.len(),
                self.config.mtu >= 40,
                self.config == old(self).config,
                self.fx.out@.len() == 0,
                self@ == s0.sent_segments(flow, segs(list@).take(i as int)),
            decreases list@.len() - i,
        {
            self.send_segment(flow, &list[i]);
            assert(segs(list@).take(i + 1).drop_last() =~= segs(list@).take(i as int));
            assert(segs(list@).take(i + 1).last() == list@[i as int]@);
            i += 1;
        }
        assert(segs(list@).take(i as int) =~= segs(list@));
    }

    // ---- Connections ------------------------------------------------------------

    /// The host learns of the end of one of its connections.
    fn end_host(&mut self, id: ConnId, reason: Option<CloseReason>)
        ensures
            final(self)@ == (Net { host: old(self)@.host.ended(id, reason), ..old(self)@ }),
            final(self).fx == old(self).fx,
            final(self).config == old(self).config,
            final(self).tcp == old(self).tcp,
    {
        match self.host.conns.find(id) {
            None => {},
            Some(i) => {
                if self.host.conns.entries[i].1.released {
                    let _ = self.host.conns.remove(id);
                } else {
                    let e: &mut HostEnd = self.host.conns.slot(i);
                    e.closed = reason;
                }
            },
        }
    }

    /// A closed connection at `i` leaves the table.
    fn reap_tcp(&mut self, i: usize)
        requires
            i < old(self)@.tcp.len(),
        ensures
            final(self)@ == old(self)@.reaped(i as int),
            final(self).fx == old(self).fx,
            final(self).config == old(self).config,
    {
        if self.tcp.entries[i].1.is_closed() {
            let ghost s0 = self@;
            let e: (u64, TcpConn) = self.tcp.entries.remove(i);
            assert(self.tcp@ =~= s0.tcp.remove(i as int));
            self.tcp_index.remove(e.1.t.flow);
            self.end_host(e.0, e.1.t.close_reason);
        }
    }

    pub(crate) fn step_conn(&mut self, i: usize, flow: Flow, now: VirtualTime, op: ConnOp<'_>)
        requires
            old(self).wf(),
            i < old(self)@.tcp.len(),
            op matches ConnOp::Input(_, payload) ==> payload@.len() <= 65_535,
        ensures
            final(self)@ == old(self)@.conn_stepped::<U>(i as int, flow, now, op@),
            final(self).wf(),
            final(self).next_id == old(self).next_id,
            final(self)@.tcp.len() <= old(self)@.tcp.len(),
    {
        reveal(Net::conn_stepped);
        let ghost s0 = self@;
        let id: ConnId = self.tcp.entries[i].0;
        assert(s0.tcp[i as int].1.wf());
        assert(segs(self.fx.out@) =~= Seq::<Seg>::empty());
        if self.host.owns(id) {
            let c: &mut TcpConn = self.tcp.slot(i);
            run_op(c, now, &mut self.host, &mut self.fx, &op);
        } else {
            let c: &mut TcpConn = self.tcp.slot(i);
            run_op(c, now, &mut self.upstream, &mut self.fx, &op);
        }
        let ghost s1 = self@;
        assert(forall|k: int| 0 <= k < s1.tcp.len() ==> (#[trigger] s1.tcp[k]).1.wf());
        proof {
            lemma_sent_segments_keeps(s1, flow, segs(self.fx.out@));
        }
        self.emit_segments(flow);
        self.reap_tcp(i);
    }

    // ---- Polling ----------------------------------------------------------------

    /// Advances timers and exchanges with the upstream to `now`.
    pub fn poll(&mut self, now: VirtualTime)
        requires
            old(self).wf(),
        ensures
            final(self)@ == old(self)@.polled::<U>(now),
            final(self).wf(),
    {
        reveal(Net::polled);
        self.open_hosts(now);
        self.poll_tcp(now);
        self.drain_udp(now);
        self.expire_udp(now);
    }

    fn poll_tcp(&mut self, now: VirtualTime)
        requires
            old(self).wf(),
        ensures
            final(self)@ == old(self)@.tcp_polled::<U>(0, old(self)@.tcp.len(), now),
            final(self).wf(),
    {
        let mut left: usize = self.tcp.len();
        let mut i: usize = 0;
        while left > 0 && i < self.tcp.len()
            invariant
                self.wf(),
                self@.tcp_polled::<U>(i as int, left as nat, now) == old(self)@.tcp_polled::<U>(
                    0,
                    old(self)@.tcp.len(),
                    now,
                ),
            decreases left,
        {
            let id: ConnId = self.tcp.entries[i].0;
            let flow: Flow = self.tcp.entries[i].1.t.flow;
            let abort: bool = match self.host.conns.get(id) {
                Some(e) => e.abort,
                None => false,
            };
            let n: usize = self.tcp.len();
            if abort {
                self.step_conn(i, flow, now, ConnOp::Abort);
            } else {
                self.step_conn(i, flow, now, ConnOp::Poll);
            }
            if self.tcp.len() >= n {
                i += 1;
            }
            left -= 1;
        }
    }

    fn drain_udp(&mut self, now: VirtualTime)
        requires
            old(self).wf(),
        ensures
            final(self)@ == udp_drained::<U>(old(self)@, now),
            final(self).wf(),
    {
        loop
            invariant_except_break
                udp_drained::<U>(self@, now) == udp_drained::<U>(old(self)@, now),
            invariant
                self.wf(),
            ensures
                self@ == udp_drained::<U>(old(self)@, now),
                self.wf(),
            decreases U::udp_ready(self.upstream.model()),
        {
            proof {
                U::udp_drains(self.upstream.model(), now);
            }
            match self.upstream.udp_recv(now) {
                Some((id, data)) => {
                    self.udp_to_guest(now, id, data.as_slice());
                },
                None => {
                    break;
                },
            }
        }
    }

    fn udp_to_guest(&mut self, now: VirtualTime, id: ConnId, data: &[u8])
        requires
            old(self).wf(),
        ensures
            final(self)@ == old(self)@.udp_delivered(now, id, data@),
            final(self).wf(),
            final(self).upstream == old(self).upstream,
    {
        reveal(Net::udp_delivered);
        let max: usize = self.config.mtu as usize - 28;
        let i: usize = match self.udp.find(id) {
            Some(i) => i,
            None => {
                self.stats.udp_dropped = self.stats.udp_dropped.wrapping_add(1);
                return;
            },
        };
        if data.len() > max {
            self.stats.udp_dropped = self.stats.udp_dropped.wrapping_add(1);
            return;
        }
        let f: &mut UdpFlow = self.udp.slot(i);
        f.last_activity = now;
        f.bytes_to_guest = f.bytes_to_guest.wrapping_add(data.len() as u64);
        let flow: Flow = f.flow;
        push_event(
            &mut self.fx.log,
            now,
            EventKind::UdpData { id, dir: Direction::ToGuest, len: data.len() },
        );
        if flow.remote == self.config.dns_socket() {
            self.log_answer(now, id, data);
        }
        self.send_udp(flow, data);
    }

    fn log_answer(&mut self, now: VirtualTime, id: ConnId, data: &[u8])
        requires
            data@.len() + 4 <= usize::MAX,
        ensures
            final(self)@ == old(self)@.answer_logged(now, id, data@),
            final(self).fx.out == old(self).fx.out,
            final(self).upstream == old(self).upstream,
            final(self).tcp == old(self).tcp,
            final(self).config == old(self).config,
    {
        reveal(Net::answer_logged);
        match dns::parse_response(data) {
            Some(r) => {
                push_event(
                    &mut self.fx.log,
                    now,
                    EventKind::DnsAnswer {
                        id,
                        txid: r.id,
                        name: r.name,
                        qtype: r.qtype,
                        rcode: r.rcode,
                        addrs: r.addrs,
                    },
                );
            },
            None => {},
        }
    }

    pub(crate) fn log_question(&mut self, now: VirtualTime, id: ConnId, data: &[u8])
        ensures
            final(self)@ == old(self)@.question_logged(now, id, data@),
            final(self).fx.out == old(self).fx.out,
            final(self).tcp == old(self).tcp,
            final(self).config == old(self).config,
    {
        reveal(Net::question_logged);
        match dns::parse_query(data) {
            Some(q) => {
                push_event(
                    &mut self.fx.log,
                    now,
                    EventKind::DnsQuery { id, txid: q.id, name: q.name, qtype: q.qtype },
                );
            },
            None => {},
        }
    }

    fn send_udp(&mut self, flow: Flow, data: &[u8])
        requires
            old(self).config.mtu >= 40,
        ensures
            final(self)@ == old(self)@.sent_udp(flow, data@),
            final(self).fx == old(self).fx,
            final(self).config == old(self).config,
            final(self).upstream == old(self).upstream,
            final(self).tcp == old(self).tcp,
    {
        reveal(Net::sent_udp);
        let udp: Vec<u8> = wire::build_udp(
            flow.remote.ip,
            flow.remote.port,
            flow.guest.ip,
            flow.guest.port,
            data,
        );
        self.send_ipv4(flow.remote.ip, flow.guest.ip, wire::PROTO_UDP, udp.as_slice());
    }

    fn expire_udp(&mut self, now: VirtualTime)
        requires
            old(self).wf(),
        ensures
            final(self)@ == old(self)@.udp_expired::<U>(0, old(self)@.udp.len(), now),
            final(self).wf(),
    {
        let mut left: usize = self.udp.len();
        let mut i: usize = 0;
        while left > 0 && i < self.udp.len()
            invariant
                self.wf(),
                self@.udp_expired::<U>(i as int, left as nat, now) == old(self)@.udp_expired::<U>(
                    0,
                    old(self)@.udp.len(),
                    now,
                ),
            decreases left,
        {
            let id: ConnId = self.udp.entries[i].0;
            let f: UdpFlow = self.udp.entries[i].1;
            assert(self@.udp[i as int] == (id, f));
            if now.0 >= f.last_activity.after(self.config.udp_idle_timeout_us).0 {
                let ghost s0 = self@;
                let _ = self.udp.entries.remove(i);
                assert(self.udp@ =~= s0.udp.remove(i as int));
                self.udp_index.remove(f.flow);
                push_event(
                    &mut self.fx.log,
                    now,
                    EventKind::UdpClosed {
                        id,
                        reason: CloseReason::Idle,
                        bytes_to_remote: f.bytes_to_remote,
                        bytes_to_guest: f.bytes_to_guest,
                    },
                );
                self.upstream.udp_close(now, id);
            } else {
                i += 1;
            }
            left -= 1;
        }
    }

    fn open_hosts(&mut self, now: VirtualTime)
        requires
            old(self).wf(),
        ensures
            final(self)@ == old(self)@.hosts_opened(0, old(self)@.host.conns.len(), now),
            final(self).wf(),
    {
        let mut left: usize = self.host.conns.len();
        let mut i: usize = 0;
        while left > 0 && i < self.host.conns.len()
            invariant
                self.wf(),
                self@.hosts_opened(i as int, left as nat, now) == old(self)@.hosts_opened(
                    0,
                    old(self)@.host.conns.len(),
                    now,
                ),
            decreases left,
        {
            let gone: bool = self.host.conns.entries[i].1.abort
                && self.host.conns.entries[i].1.released;
            if self.host.conns.entries[i].1.pending_open {
                self.open_host(i, now);
                if !gone {
                    i += 1;
                }
            } else {
                i += 1;
            }
            left -= 1;
        }
    }

    fn open_host(&mut self, i: usize, now: VirtualTime)
        requires
            old(self).wf(),
            i < old(self)@.host.conns.len(),
        ensures
            final(self)@ == old(self)@.host_opened(i as int, now),
            final(self).wf(),
    {
        reveal(Net::host_opened);
        let ghost s0 = self@;
        let id: ConnId = self.host.conns.entries[i].0;
        let flow: Flow = self.host.conns.entries[i].1.flow;
        let abort: bool = self.host.conns.entries[i].1.abort;
        let released: bool = self.host.conns.entries[i].1.released;
        if abort && released {
            let _ = self.host.conns.entries.remove(i);
            assert(self.host.conns@ =~= s0.host.conns.remove(i as int));
            return;
        }
        let e: &mut HostEnd = self.host.conns.slot(i);
        e.pending_open = false;
        if abort {
            e.closed = Some(CloseReason::RemoteReset);
            return;
        }
        push_event(&mut self.fx.log, now, EventKind::TcpConnect { id, flow });
        let iss: u32 = self.config.initial_seq(id);
        let local_mss: u16 = self.config.mtu - 40;
        let timeout: u64 = self.config.tcp_connect_timeout_us;
        assert(segs(self.fx.out@) =~= Seq::<Seg>::empty());
        let c: TcpConn = TcpConn::connect(id, flow, iss, local_mss, now, timeout, &mut self.fx);
        let ghost before = self@.tcp;
        self.tcp.insert(id, c);
        self.tcp_index.insert(flow, id);
        proof {
            lemma_put_wf(before, id, c@);
            lemma_sent_segments_keeps(self@, flow, segs(self.fx.out@));
        }
        self.emit_segments(flow);
    }

    /// First instant at which an internal timer expires (retransmissions,
    /// TIME-WAIT, waits for the upstream, idle UDP flows). The platform must
    /// call `poll` by then; `None` if there are no timers.
    pub fn next_deadline(&self) -> (r: Option<VirtualTime>)
        ensures
            self@.is_next_deadline(r),
    {
        let mut best: Option<VirtualTime> = None;
        let mut i: usize = 0;
        while i < self.tcp.entries.len()
            invariant
                i <= self.tcp.entries@.len(),
                best matches Some(d) ==> self@.is_deadline(d),
                forall|k: int|
                    0 <= k < i ==> ((#[trigger] self@.tcp[k]).1.next_deadline() matches Some(e)
                        ==> best matches Some(d) && d.0 <= e.0),
            decreases self.tcp.entries@.len() - i,
        {
            assert(self@.tcp[i as int].1 == self.tcp.entries@[i as int].1@);
            let d: Option<VirtualTime> = self.tcp.entries[i].1.next_deadline();
            best = earlier(best, d);
            i += 1;
        }
        let mut j: usize = 0;
        while j < self.udp.entries.len()
            invariant
                j <= self.udp.entries@.len(),
                best matches Some(d) ==> self@.is_deadline(d),
                forall|k: int|
                    0 <= k < self@.tcp.len() ==> ((
                    #[trigger] self@.tcp[k]).1.next_deadline() matches Some(e)
                        ==> best matches Some(d) && d.0 <= e.0),
                forall|k: int|
                    0 <= k < j ==> (best matches Some(d) && d.0 <= (
                    #[trigger] self@.udp[k]).1.last_activity.later(
                        self.config.udp_idle_timeout_us,
                    ).0),
            decreases self.udp.entries@.len() - j,
        {
            assert(self@.udp[j as int].1 == self.udp.entries@[j as int].1);
            let d: VirtualTime = self.udp.entries[j].1.last_activity.after(
                self.config.udp_idle_timeout_us,
            );
            assert(self@.is_deadline(d));
            best = earlier(best, Some(d));
            j += 1;
        }
        best
    }
}

fn earlier(a: Option<VirtualTime>, b: Option<VirtualTime>) -> (r: Option<VirtualTime>)
    ensures
        r == a || r == b,
        a matches Some(d) ==> r matches Some(e) && e.0 <= d.0,
        b matches Some(d) ==> r matches Some(e) && e.0 <= d.0,
{
    match (a, b) {
        (Some(x), Some(y)) => if y.0 < x.0 {
            Some(y)
        } else {
            Some(x)
        },
        (None, y) => y,
        (x, None) => x,
    }
}

impl<M> Net<M> {
    /// `r` is the first instant at which a timer expires, if there is one.
    pub open spec fn is_next_deadline(self, r: Option<VirtualTime>) -> bool {
        match r {
            Some(d) => self.is_deadline(d) && forall|e: VirtualTime| #[trigger]
                self.is_deadline(e) ==> d.0 <= e.0,
            None => forall|e: VirtualTime| !#[trigger] self.is_deadline(e),
        }
    }

    /// A timer expires at `d`.
    pub open spec fn is_deadline(self, d: VirtualTime) -> bool {
        ||| exists|i: int|
            0 <= i < self.tcp.len() && (#[trigger] self.tcp[i]).1.next_deadline() == Some(d)
        ||| exists|i: int|
            0 <= i < self.udp.len() && (#[trigger] self.udp[i]).1.last_activity.later(
                self.config.udp_idle_timeout_us,
            ) == d
    }
}

pub proof fn lemma_put_wf(s: Seq<(ConnId, Conn)>, id: ConnId, c: Conn)
    requires
        forall|i: int| 0 <= i < s.len() ==> (#[trigger] s[i]).1.wf(),
        c.wf(),
    ensures
        forall|i: int| 0 <= i < put(s, id, c).len() ==> (#[trigger] put(s, id, c)[i]).1.wf(),
{
    crate::table::lemma_rank(s, id);
    let t = put(s, id, c);
    assert forall|i: int| 0 <= i < t.len() implies (#[trigger] t[i]).1.wf() by {
        let r = rank(s, id);
        if i != r {
            if keyed(s, id) || i < r {
                assert(t[i] == s[i]);
            } else {
                assert(t[i] == s[i - 1]);
            }
        }
    }
}

} // verus!
