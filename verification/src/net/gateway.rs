//! What the virtual gateway does, as functions on its abstract state.
use vstd::prelude::*;
use crate::bytes::min_len;
use crate::net::addr::{ConnId, Flow, Ipv4Addr, Mac, SocketAddrV4, VirtualTime};
use crate::net::dhcp;
use crate::net::dns;
use crate::net::flows::{conn_of_flow, filed, unfiled};
use crate::net::events::{CloseReason, DhcpMessage, Direction, Event, Fact};
use crate::net::hostfwd::{End, Ends, HostConnState, HostSide, FIRST_EPHEMERAL_PORT};
use crate::net::tcp::{count64, Conn, Seg, State, World};
use crate::net::upstream::Upstream;
use crate::net::wire;
use crate::net::wire::{Arp, Ipv4Header, TcpHeader, TCP_ACK, TCP_RST, TCP_SYN};
use crate::table::{keyed, put, rank, value};

verus! {

/// Configuration of the virtual network.
#[derive(Clone, Copy, Debug, PartialEq, Eq, Structural)]
pub struct NetConfig {
    /// MAC of the gateway (and of the virtual DNS).
    pub gateway_mac: Mac,
    pub gateway_ip: Ipv4Addr,
    pub dns_ip: Ipv4Addr,
    /// Address assigned to the guest by DHCP.
    pub guest_ip: Ipv4Addr,
    pub netmask: Ipv4Addr,
    /// MTU of the link (without the Ethernet header).
    pub mtu: u16,
    pub lease_secs: u32,
    /// Seed of the initial TCP sequence numbers.
    pub seed: u64,
    /// Discards the packets with a wrong IP/TCP/UDP/ICMP checksum. The network
    /// card must not offer checksum offload, or the platform must complete the
    /// partial checksums before it hands the packets over.
    pub verify_checksums: bool,
    /// Idle time after which a UDP flow closes.
    pub udp_idle_timeout_us: u64,
    /// How long the upstream may take to open a TCP connection.
    pub tcp_connect_timeout_us: u64,
}

impl Default for NetConfig {
    fn default() -> (r: Self)
        ensures
            r == (NetConfig {
                gateway_mac: Mac { b0: 0x52, b1: 0x55, b2: 0x0a, b3: 0x00, b4: 0x02, b5: 0x02 },
                gateway_ip: Ipv4Addr::of(10, 0, 2, 2),
                dns_ip: Ipv4Addr::of(10, 0, 2, 3),
                guest_ip: Ipv4Addr::of(10, 0, 2, 15),
                netmask: Ipv4Addr::of(255, 255, 255, 0),
                mtu: 1500,
                lease_secs: 86_400,
                seed: 0,
                verify_checksums: true,
                udp_idle_timeout_us: 60_000_000,
                tcp_connect_timeout_us: 75_000_000,
            }),
    {
        NetConfig {
            gateway_mac: Mac { b0: 0x52, b1: 0x55, b2: 0x0a, b3: 0x00, b4: 0x02, b5: 0x02 },
            gateway_ip: Ipv4Addr::new(10, 0, 2, 2),
            dns_ip: Ipv4Addr::new(10, 0, 2, 3),
            guest_ip: Ipv4Addr::new(10, 0, 2, 15),
            netmask: Ipv4Addr::new(255, 255, 255, 0),
            mtu: 1500,
            lease_secs: 86_400,
            seed: 0,
            verify_checksums: true,
            udp_idle_timeout_us: 60_000_000,
            tcp_connect_timeout_us: 75_000_000,
        }
    }
}

impl NetConfig {
    /// The address is one of the gateway's own.
    pub open spec fn is_gateway(self, ip: Ipv4Addr) -> bool {
        ip == self.gateway_ip || ip == self.dns_ip
    }

    pub open spec fn in_subnet(self, ip: Ipv4Addr) -> bool {
        ip.bits & self.netmask.bits == self.gateway_ip.bits & self.netmask.bits
    }

    /// The address is outside the virtual network.
    pub open spec fn is_external(self, ip: Ipv4Addr) -> bool {
        !self.in_subnet(ip) && ip.bits != 0xFFFF_FFFF && !ip.multicast()
    }

    pub open spec fn dns_endpoint(self) -> SocketAddrV4 {
        SocketAddrV4 { ip: self.dns_ip, port: 53 }
    }

    pub open spec fn lease(self) -> dhcp::Lease {
        dhcp::Lease {
            server: self.gateway_ip,
            client: self.guest_ip,
            netmask: self.netmask,
            router: self.gateway_ip,
            dns: self.dns_ip,
            lease_secs: self.lease_secs,
        }
    }

    /// The MSS that the stack announces: the MTU without the two headers.
    pub open spec fn local_mss(self) -> u16 {
        (self.mtu - 40) as u16
    }

    /// The initial sequence number of the connection `id`.
    pub open spec fn iss(self, id: ConnId) -> u32 {
        (mixed(self.seed ^ id.wrapping_mul(0x2545_f491_4f6c_dd1d)) % 0x1_0000_0000) as u32
    }
}

/// The SplitMix64 finalizer.
pub open spec fn mixed(z: u64) -> u64 {
    let a = z.wrapping_add(0x9e37_79b9_7f4a_7c15);
    let b = (a ^ (a >> 30)).wrapping_mul(0xbf58_476d_1ce4_e5b9);
    let c = (b ^ (b >> 27)).wrapping_mul(0x94d0_49bb_1331_11eb);
    c ^ (c >> 31)
}

/// Frame counters, for diagnosis. They are not part of the event log.
#[derive(Clone, Copy, Debug, PartialEq, Eq, Structural)]
pub struct Stats {
    pub frames_in: u64,
    pub frames_out: u64,
    /// Truncated or inconsistent frames or packets.
    pub malformed: u64,
    pub bad_checksum: u64,
    /// Destination that is neither the gateway nor an outside address.
    pub not_for_us: u64,
    /// IPv6 is not supported.
    pub ipv6: u64,
    /// IPv4 fragments: they are not reassembled.
    pub fragments: u64,
    /// Protocols or messages that are ignored.
    pub ignored: u64,
    /// UDP answers too large for the MTU or for flows already closed.
    pub udp_dropped: u64,
    /// RSTs for segments that belong to no connection.
    pub tcp_rst_unknown: u64,
}

/// The IP header of a packet and the first 8 bytes after it.
pub open spec fn quoted(packet: Seq<u8>) -> Seq<u8> {
    packet.take(min_len((wire::ihl_of(packet) + 8) as nat, packet.len()) as int)
}

/// One more, modulo 2^64.
pub open spec fn bump(n: u64) -> u64 {
    count64(n, 1)
}

/// A UDP flow of the guest.
#[derive(Clone, Copy, Debug, PartialEq, Eq, Structural)]
pub struct UdpFlow {
    pub flow: Flow,
    pub last_activity: VirtualTime,
    pub bytes_to_remote: u64,
    pub bytes_to_guest: u64,
}

impl View for UdpFlow {
    type V = UdpFlow;

    open spec fn view(&self) -> UdpFlow {
        *self
    }
}

/// The abstract state of the gateway with an upstream in state `M`.
#[verifier::ext_equal]
pub struct Net<M> {
    pub config: NetConfig,
    pub up: M,
    pub log: Seq<Event>,
    pub stats: Stats,
    pub guest_mac: Option<Mac>,
    pub out: Seq<Seq<u8>>,
    pub tcp: Seq<(ConnId, Conn)>,
    /// The connection of each flow.
    pub tcp_index: Seq<(Flow, ConnId)>,
    pub udp: Seq<(ConnId, UdpFlow)>,
    /// The number of each UDP flow.
    pub udp_index: Seq<(Flow, ConnId)>,
    pub host: Ends,
    pub next_id: ConnId,
    pub ip_ident: u16,
}

/// What is done with a connection.
pub enum Step {
    /// Timers and exchange with the upstream.
    Poll,
    /// A segment of the guest, and the exchange that follows.
    Input { h: TcpHeader, payload: Seq<u8> },
    /// The guest opens the same quadruple again.
    EndTimeWait,
    /// The host breaks the connection.
    Abort,
}

impl Conn {
    pub open spec fn stepped<V: Upstream>(self, w: World<V::Model>, now: VirtualTime, op: Step) -> (
        Conn,
        World<V::Model>,
    ) {
        match op {
            Step::Poll => {
                let (c, w2) = self.on_timer::<V>(w, now);
                c.process::<V>(w2, now)
            },
            Step::Input { h, payload } => {
                let (c, w2) = self.input::<V>(w, now, h, payload);
                c.process::<V>(w2, now)
            },
            Step::EndTimeWait => if self.t.state == State::TimeWait {
                self.finish::<V>(w, now, CloseReason::Normal, false)
            } else {
                (self, w)
            },
            Step::Abort => self.aborted::<V>(w, now),
        }
    }
}

/// A host connection waits for its SYN with this flow.
pub open spec fn awaited(s: Seq<(ConnId, End)>, flow: Flow) -> bool {
    exists|i: int| 0 <= i < s.len() && (#[trigger] s[i]).1.pending_open && s[i].1.flow == flow
}

/// The segment asks for a new connection.
pub open spec fn opens(h: TcpHeader) -> bool {
    h.flag(TCP_SYN) && !h.flag(TCP_ACK) && !h.flag(TCP_RST)
}

/// The answer to a segment that belongs to no connection.
pub open spec fn stray_reset(h: TcpHeader, len: nat) -> Seg {
    if h.flag(TCP_ACK) {
        Seg {
            seq: h.ack,
            ack: 0,
            flags: TCP_RST,
            window: 0,
            mss: None,
            payload: Seq::empty(),
        }
    } else {
        Seg {
            seq: 0,
            ack: crate::net::tcp::wadd(h.seq, Conn::seg_len(h, len)),
            flags: TCP_RST | TCP_ACK,
            window: 0,
            mss: None,
            payload: Seq::empty(),
        }
    }
}

impl<M> Net<M> {
    // ---- Output -----------------------------------------------------------------

    pub open spec fn framed(self, dst: Mac, ethertype: u16, payload: Seq<u8>) -> Self {
        Net {
            stats: Stats { frames_out: bump(self.stats.frames_out), ..self.stats },
            out: self.out.push(
                wire::eth_frame(dst, self.config.gateway_mac, ethertype, payload),
            ),
            ..self
        }
    }

    pub open spec fn guest_dst_mac(self) -> Mac {
        match self.guest_mac {
            Some(m) => m,
            None => Mac::all(0xFF),
        }
    }

    pub open spec fn sent_ipv4_to(
        self,
        mac: Mac,
        src: Ipv4Addr,
        dst: Ipv4Addr,
        proto: u8,
        payload: Seq<u8>,
    ) -> Self {
        let ident = ((self.ip_ident + 1) % 0x1_0000) as u16;
        (Net { ip_ident: ident, ..self }).framed(
            mac,
            wire::ETHERTYPE_IPV4,
            wire::ipv4_packet(src, dst, proto, ident, payload),
        )
    }

    pub open spec fn sent_ipv4(
        self,
        src: Ipv4Addr,
        dst: Ipv4Addr,
        proto: u8,
        payload: Seq<u8>,
    ) -> Self {
        self.sent_ipv4_to(self.guest_dst_mac(), src, dst, proto, payload)
    }

    pub open spec fn sent_segment(self, flow: Flow, s: Seg) -> Self {
        self.sent_ipv4(
            flow.remote.ip,
            flow.guest.ip,
            wire::PROTO_TCP,
            wire::tcp_segment(
                flow.remote.ip,
                flow.remote.port,
                flow.guest.ip,
                flow.guest.port,
                s.seq,
                s.ack,
                s.flags,
                s.window,
                s.mss,
                s.payload,
            ),
        )
    }

    pub open spec fn sent_segments(self, flow: Flow, segs: Seq<Seg>) -> Self
        decreases segs.len(),
    {
        if segs.len() == 0 {
            self
        } else {
            self.sent_segments(flow, segs.drop_last()).sent_segment(flow, segs.last())
        }
    }

    pub open spec fn logged(self, at: VirtualTime, kind: Fact) -> Self {
        Net { log: self.log.push(Event { at, kind }), ..self }
    }

    // ---- Connections ------------------------------------------------------------

    /// A closed connection at `i` leaves the table and the index; if it is the
    /// host's, its end learns why, and goes too if the host had released it.
    pub open spec fn reaped(self, i: int) -> Self {
        if !(0 <= i < self.tcp.len()) || self.tcp[i].1.t.state != State::Closed {
            self
        } else {
            let id = self.tcp[i].0;
            let reason = self.tcp[i].1.t.close_reason;
            Net {
                tcp: self.tcp.remove(i),
                tcp_index: unfiled(self.tcp_index, self.tcp[i].1.t.flow),
                host: self.host.ended(id, reason),
                ..self
            }
        }
    }

    /// The connection at `i` takes a step; its segments leave on the flow; if it
    /// is over it is removed.
    #[verifier::opaque]
    pub open spec fn conn_stepped<U: Upstream<Model = M>>(
        self,
        i: int,
        flow: Flow,
        now: VirtualTime,
        op: Step,
    ) -> Self {
        let (id, c) = self.tcp[i];
        if keyed(self.host.conns, id) {
            let (d, w) = c.stepped::<HostSide>(
                World { up: self.host, log: self.log, out: Seq::empty() },
                now,
                op,
            );
            (Net {
                tcp: self.tcp.update(i, (id, d)),
                host: w.up,
                log: w.log,
                ..self
            }).sent_segments(flow, w.out).reaped(i)
        } else {
            let (d, w) = c.stepped::<U>(
                World { up: self.up, log: self.log, out: Seq::empty() },
                now,
                op,
            );
            (Net {
                tcp: self.tcp.update(i, (id, d)),
                up: w.up,
                log: w.log,
                ..self
            }).sent_segments(flow, w.out).reaped(i)
        }
    }

    // ---- Polling ----------------------------------------------------------------

    /// The host wants the connection at `i` broken.
    pub open spec fn to_abort(self, i: int) -> bool {
        let id = self.tcp[i].0;
        keyed(self.host.conns, id) && value(self.host.conns, id).abort
    }

    /// `n` connections from `i` on take their turn, in order of their number.
    pub open spec fn tcp_polled<U: Upstream<Model = M>>(self, i: int, n: nat, now: VirtualTime) -> Self
        decreases n,
    {
        if n == 0 || !(0 <= i < self.tcp.len()) {
            self
        } else {
            let op = if self.to_abort(i) { Step::Abort } else { Step::Poll };
            let a = self.conn_stepped::<U>(i, self.tcp[i].1.t.flow, now, op);
            a.tcp_polled::<U>(
                if a.tcp.len() < self.tcp.len() { i } else { i + 1 },
                (n - 1) as nat,
                now,
            )
        }
    }

    /// An answer of the upstream goes to the guest.
    #[verifier::opaque]
    pub open spec fn udp_delivered(self, now: VirtualTime, id: ConnId, data: Seq<u8>) -> Self {
        if !keyed(self.udp, id) || data.len() > self.config.mtu - 28 {
            Net { stats: Stats { udp_dropped: bump(self.stats.udp_dropped), ..self.stats }, ..self }
        } else {
            let f = value(self.udp, id);
            let a = (Net {
                udp: self.udp.update(
                    rank(self.udp, id),
                    (
                        id,
                        UdpFlow {
                            last_activity: now,
                            bytes_to_guest: count64(f.bytes_to_guest, data.len()),
                            ..f
                        },
                    ),
                ),
                ..self
            }).logged(
                now,
                Fact::UdpData { id, dir: Direction::ToGuest, len: data.len() as usize },
            );
            let b = if f.flow.remote == self.config.dns_endpoint() {
                a.answer_logged(now, id, data)
            } else {
                a
            };
            b.sent_udp(f.flow, data)
        }
    }

    /// A DNS answer for the guest is logged.
    #[verifier::opaque]
    pub open spec fn answer_logged(self, now: VirtualTime, id: ConnId, data: Seq<u8>) -> Self {
        match dns::answer_in(data) {
            Some(r) => self.logged(
                now,
                Fact::DnsAnswer {
                    id,
                    txid: r.id,
                    name: r.name,
                    qtype: r.qtype,
                    rcode: r.rcode,
                    addrs: r.addrs,
                },
            ),
            None => self,
        }
    }

    /// A datagram of the remote end of a flow leaves for the guest.
    #[verifier::opaque]
    pub open spec fn sent_udp(self, flow: Flow, data: Seq<u8>) -> Self {
        self.sent_ipv4(
            flow.remote.ip,
            flow.guest.ip,
            wire::PROTO_UDP,
            wire::udp_datagram(
                flow.remote.ip,
                flow.remote.port,
                flow.guest.ip,
                flow.guest.port,
                data,
            ),
        )
    }

    /// `n` UDP flows from `i` on are checked for idleness, in order.
    pub open spec fn udp_expired<U: Upstream<Model = M>>(self, i: int, n: nat, now: VirtualTime) -> Self
        decreases n,
    {
        if n == 0 || !(0 <= i < self.udp.len()) {
            self
        } else {
            let (id, f) = self.udp[i];
            if now.0 >= f.last_activity.later(self.config.udp_idle_timeout_us).0 {
                (Net {
                    udp: self.udp.remove(i),
                    udp_index: unfiled(self.udp_index, f.flow),
                    up: U::udp_closed(self.up, now, id),
                    ..self
                }).logged(
                    now,
                    Fact::UdpClosed {
                        id,
                        reason: CloseReason::Idle,
                        bytes_to_remote: f.bytes_to_remote,
                        bytes_to_guest: f.bytes_to_guest,
                    },
                ).udp_expired::<U>(i, (n - 1) as nat, now)
            } else {
                self.udp_expired::<U>(i + 1, (n - 1) as nat, now)
            }
        }
    }

    /// The host connection at `i` among the ends leaves for the guest: its SYN
    /// is sent. If the host has broken it meanwhile, nothing is sent.
    #[verifier::opaque]
    pub open spec fn host_opened(self, i: int, now: VirtualTime) -> Self {
        let (id, e) = self.host.conns[i];
        if e.abort {
            if e.released {
                Net { host: Ends { conns: self.host.conns.remove(i), ..self.host }, ..self }
            } else {
                Net {
                    host: Ends {
                        conns: self.host.conns.update(
                            i,
                            (
                                id,
                                End {
                                    pending_open: false,
                                    closed: Some(CloseReason::RemoteReset),
                                    ..e
                                },
                            ),
                        ),
                        ..self.host
                    },
                    ..self
                }
            }
        } else {
            let a = (Net {
                host: Ends {
                    conns: self.host.conns.update(i, (id, End { pending_open: false, ..e })),
                    ..self.host
                },
                ..self
            }).logged(now, Fact::TcpConnect { id, flow: e.flow });
            let (c, w) = Conn::towards_guest(
                id,
                e.flow,
                self.config.iss(id),
                self.config.local_mss(),
                now,
                self.config.tcp_connect_timeout_us,
            ).send_syn(World { up: (), log: a.log, out: Seq::empty() }, now, TCP_SYN);
            (Net {
                tcp: put(a.tcp, id, c),
                tcp_index: filed(a.tcp_index, e.flow, id),
                ..a
            }).sent_segments(e.flow, w.out)
        }
    }

    /// `n` ends from `i` on: those that wait for their SYN are opened.
    pub open spec fn hosts_opened(self, i: int, n: nat, now: VirtualTime) -> Self
        decreases n,
    {
        if n == 0 || !(0 <= i < self.host.conns.len()) {
            self
        } else if !self.host.conns[i].1.pending_open {
            self.hosts_opened(i + 1, (n - 1) as nat, now)
        } else {
            let a = self.host_opened(i, now);
            a.hosts_opened(
                if self.host.conns[i].1.abort && self.host.conns[i].1.released { i } else { i + 1 },
                (n - 1) as nat,
                now,
            )
        }
    }

    // ---- Input ------------------------------------------------------------------

    #[verifier::opaque]
    pub open spec fn arp_handled(self, p: Seq<u8>) -> Self {
        match wire::arp_at(p) {
            None => Net {
                stats: Stats { malformed: bump(self.stats.malformed), ..self.stats },
                ..self
            },
            // Only the gateway's own addresses are answered for: never that of
            // the guest, or its conflict detection (ARP probe) would fail.
            Some(arp) => if arp.op != wire::ARP_REQUEST || !self.config.is_gateway(arp.target_ip) {
                Net { stats: Stats { ignored: bump(self.stats.ignored), ..self.stats }, ..self }
            } else {
                self.framed(
                    arp.sender_mac,
                    wire::ETHERTYPE_ARP,
                    wire::arp_packet(
                        Arp {
                            op: wire::ARP_REPLY,
                            sender_mac: self.config.gateway_mac,
                            sender_ip: arp.target_ip,
                            target_mac: arp.sender_mac,
                            target_ip: arp.sender_ip,
                        },
                    ),
                )
            },
        }
    }

    #[verifier::opaque]
    pub open spec fn icmp_handled<U: Upstream<Model = M>>(
        self,
        now: VirtualTime,
        ip: Ipv4Header,
        msg: Seq<u8>,
    ) -> Self {
        if msg.len() < 8 {
            Net { stats: Stats { malformed: bump(self.stats.malformed), ..self.stats }, ..self }
        } else if self.config.verify_checksums && wire::spec_checksum(msg) != 0 {
            Net {
                stats: Stats { bad_checksum: bump(self.stats.bad_checksum), ..self.stats },
                ..self
            }
        } else if msg[0] != wire::ICMP_ECHO_REQUEST || msg[1] != 0 {
            Net { stats: Stats { ignored: bump(self.stats.ignored), ..self.stats }, ..self }
        } else {
            // The gateway always answers for itself, without asking the upstream.
            let own = self.config.is_gateway(ip.dst);
            let answered = own || U::ping_answer(self.up, now, ip.dst);
            let a = (Net {
                up: if own { self.up } else { U::ping_next(self.up, now, ip.dst) },
                ..self
            }).logged(now, Fact::IcmpEcho { dst: ip.dst, answered });
            if answered {
                a.sent_ipv4(
                    ip.dst,
                    ip.src,
                    wire::PROTO_ICMP,
                    wire::icmp_message(
                        wire::ICMP_ECHO_REPLY,
                        0,
                        msg.subrange(4, 8),
                        msg.skip(8),
                    ),
                )
            } else {
                a
            }
        }
    }

    #[verifier::opaque]
    pub open spec fn dhcp_handled(self, now: VirtualTime, data: Seq<u8>) -> Self {
        match dhcp::message_in(data) {
            None => Net {
                stats: Stats { malformed: bump(self.stats.malformed), ..self.stats },
                ..self
            },
            Some(req) => {
                let a = if req.chaddr != Mac::all(0) && req.chaddr.b0 & 1 == 0 {
                    Net { guest_mac: Some(req.chaddr), ..self }
                } else {
                    self
                };
                if req.message_type == Some(dhcp::RELEASE) || req.message_type == Some(
                    dhcp::DECLINE,
                ) {
                    a.logged(
                        now,
                        Fact::Dhcp {
                            message: if req.message_type == Some(dhcp::RELEASE) {
                                DhcpMessage::Release
                            } else {
                                DhcpMessage::Decline
                            },
                            mac: req.chaddr,
                            ip: req.wanted(),
                            hostname: req.hostname,
                        },
                    )
                } else {
                    match req.answer(self.config.lease()) {
                        None => Net {
                            stats: Stats { ignored: bump(a.stats.ignored), ..a.stats },
                            ..a
                        },
                        Some(reply) => a.logged(
                            now,
                            Fact::Dhcp {
                                message: if reply.message_type == dhcp::OFFER {
                                    DhcpMessage::Offer
                                } else if reply.message_type == dhcp::ACK {
                                    DhcpMessage::Ack
                                } else {
                                    DhcpMessage::Nak
                                },
                                mac: req.chaddr,
                                ip: reply.yiaddr,
                                hostname: req.hostname,
                            },
                        ).sent_ipv4_to(
                            reply.dst_mac,
                            self.config.gateway_ip,
                            reply.dst_ip,
                            wire::PROTO_UDP,
                            wire::udp_datagram(
                                self.config.gateway_ip,
                                dhcp::SERVER_PORT,
                                reply.dst_ip,
                                dhcp::CLIENT_PORT,
                                reply.packet,
                            ),
                        ),
                    }
                }
            },
        }
    }

    /// A datagram of the guest on a flow, new or known.
    #[verifier::opaque]
    pub open spec fn udp_taken<U: Upstream<Model = M>>(
        self,
        now: VirtualTime,
        flow: Flow,
        data: Seq<u8>,
    ) -> Self {
        let known = conn_of_flow(self.udp_index, flow) is Some;
        let id = if known { conn_of_flow(self.udp_index, flow)->0 } else { self.next_id };
        let f = if known {
            value(self.udp, id)
        } else {
            UdpFlow { flow, last_activity: now, bytes_to_remote: 0, bytes_to_guest: 0 }
        };
        let g = UdpFlow {
            last_activity: now,
            bytes_to_remote: count64(f.bytes_to_remote, data.len()),
            ..f
        };
        let a = if known && keyed(self.udp, id) {
            Net { udp: self.udp.update(rank(self.udp, id), (id, g)), ..self }
        } else if known {
            self
        } else {
            (Net {
                udp: put(self.udp, id, g),
                udp_index: filed(self.udp_index, flow, id),
                next_id: (self.next_id + 1) as u64,
                ..self
            }).logged(now, Fact::UdpOpen { id, flow })
        };
        let b = a.logged(
            now,
            Fact::UdpData { id, dir: Direction::ToRemote, len: data.len() as usize },
        );
        let c = if flow.remote == self.config.dns_endpoint() {
            b.question_logged(now, id, data)
        } else {
            b
        };
        Net { up: U::udp_sent(c.up, now, id, flow, data), ..c }
    }

    /// A DNS question of the guest is logged.
    #[verifier::opaque]
    pub open spec fn question_logged(self, now: VirtualTime, id: ConnId, data: Seq<u8>) -> Self {
        match dns::question_in(data) {
            Some(q) => self.logged(
                now,
                Fact::DnsQuery { id, txid: q.id, name: q.name, qtype: q.qtype },
            ),
            None => self,
        }
    }

    #[verifier::opaque]
    pub open spec fn udp_handled<U: Upstream<Model = M>>(
        self,
        now: VirtualTime,
        ip: Ipv4Header,
        packet: Seq<u8>,
        segment: Seq<u8>,
    ) -> Self {
        let udp = wire::udp_at(ip.src, ip.dst, segment);
        let flow = Flow {
            guest: SocketAddrV4 { ip: ip.src, port: udp.src_port },
            remote: SocketAddrV4 { ip: ip.dst, port: udp.dst_port },
        };
        if !wire::is_udp(segment) {
            Net { stats: Stats { malformed: bump(self.stats.malformed), ..self.stats }, ..self }
        } else if self.config.verify_checksums && !udp.checksum_ok {
            Net {
                stats: Stats { bad_checksum: bump(self.stats.bad_checksum), ..self.stats },
                ..self
            }
        } else if self.config.is_gateway(ip.dst) && flow.remote != self.config.dns_endpoint() {
            // No UDP service here: ICMP port unreachable with the IP header and
            // the first 8 bytes of what came.
            self.sent_ipv4(
                ip.dst,
                ip.src,
                wire::PROTO_ICMP,
                wire::icmp_message(
                    wire::ICMP_DEST_UNREACHABLE,
                    wire::ICMP_PORT_UNREACHABLE,
                    seq![0u8, 0, 0, 0],
                    quoted(packet),
                ),
            )
        } else {
            self.udp_taken::<U>(now, flow, wire::udp_payload(segment))
        }
    }

    /// A SYN of the guest opens a connection.
    #[verifier::opaque]
    pub open spec fn tcp_opened<U: Upstream<Model = M>>(
        self,
        now: VirtualTime,
        flow: Flow,
        h: TcpHeader,
    ) -> Self {
        let id = self.next_id;
        let a = (Net {
            next_id: (self.next_id + 1) as u64,
            up: U::opened(self.up, now, id, flow),
            ..self
        }).logged(now, Fact::TcpOpen { id, flow });
        let (c, w) = Conn::from_syn(
            id,
            flow,
            h,
            self.config.iss(id),
            self.config.local_mss(),
            now,
            self.config.tcp_connect_timeout_us,
        ).process::<U>(World { up: a.up, log: a.log, out: Seq::empty() }, now);
        let b = (Net { up: w.up, log: w.log, ..a }).sent_segments(flow, w.out);
        if c.t.state == State::Closed {
            b
        } else {
            Net {
                tcp: put(b.tcp, id, c),
                tcp_index: filed(b.tcp_index, flow, id),
                ..b
            }
        }
    }

    #[verifier::opaque]
    pub open spec fn tcp_handled<U: Upstream<Model = M>>(
        self,
        now: VirtualTime,
        ip: Ipv4Header,
        segment: Seq<u8>,
    ) -> Self {
        let h = wire::tcp_at(ip.src, ip.dst, segment);
        if !wire::is_tcp(segment) {
            Net { stats: Stats { malformed: bump(self.stats.malformed), ..self.stats }, ..self }
        } else if self.config.verify_checksums && !h.checksum_ok {
            Net {
                stats: Stats { bad_checksum: bump(self.stats.bad_checksum), ..self.stats },
                ..self
            }
        } else {
            self.tcp_dispatched::<U>(
                now,
                Flow {
                    guest: SocketAddrV4 { ip: ip.src, port: h.src_port },
                    remote: SocketAddrV4 { ip: ip.dst, port: h.dst_port },
                },
                h,
                segment.skip(wire::data_offset(segment)),
            )
        }
    }

    /// A segment goes to the connection `id`, if there is one: it takes it in, or
    /// makes way for a new one if it was in TIME-WAIT.
    #[verifier::opaque]
    pub open spec fn tcp_given<U: Upstream<Model = M>>(
        self,
        now: VirtualTime,
        id: ConnId,
        flow: Flow,
        h: TcpHeader,
        payload: Seq<u8>,
    ) -> Self {
        if keyed(self.tcp, id) {
            let i = rank(self.tcp, id);
            let reopened = self.tcp[i].1.t.state == State::TimeWait && opens(h);
            self.conn_stepped::<U>(
                i,
                flow,
                now,
                if reopened { Step::EndTimeWait } else { Step::Input { h, payload } },
            )
        } else {
            self
        }
    }

    /// A segment goes to the connection of its flow, opens one, or is answered
    /// with an RST.
    #[verifier::opaque]
    pub open spec fn tcp_dispatched<U: Upstream<Model = M>>(
        self,
        now: VirtualTime,
        flow: Flow,
        h: TcpHeader,
        payload: Seq<u8>,
    ) -> Self {
        if let Some(id) = conn_of_flow(self.tcp_index, flow) {
            let a = self.tcp_given::<U>(now, id, flow, h, payload);
            if opens(h) && conn_of_flow(a.tcp_index, flow) is None {
                a.tcp_opened::<U>(now, flow, h)
            } else {
                a
            }
        } else if opens(h) {
            self.tcp_opened::<U>(now, flow, h)
        } else if h.flag(TCP_RST) {
            self
        } else {
            self.tcp_refused(flow, h, payload.len())
        }
    }

    /// A segment that belongs to no connection is answered with an RST.
    pub open spec fn tcp_refused(self, flow: Flow, h: TcpHeader, len: nat) -> Self {
        (Net {
            stats: Stats { tcp_rst_unknown: bump(self.stats.tcp_rst_unknown), ..self.stats },
            ..self
        }).sent_segment(flow, stray_reset(h, len))
    }

    /// The packet is a datagram for the DHCP server (it comes by broadcast, or
    /// to the gateway, from a source that may be null).
    pub open spec fn for_dhcp(self, ip: Ipv4Header, payload: Seq<u8>) -> bool {
        &&& ip.proto == wire::PROTO_UDP
        &&& ip.dst.bits == 0xFFFF_FFFF || ip.dst == self.config.gateway_ip
        &&& wire::is_udp(payload)
        &&& wire::udp_at(ip.src, ip.dst, payload).dst_port == dhcp::SERVER_PORT
    }

    #[verifier::opaque]
    pub open spec fn ipv4_handled<U: Upstream<Model = M>>(
        self,
        now: VirtualTime,
        packet: Seq<u8>,
    ) -> Self {
        let ip = wire::ipv4_at(packet);
        let payload = wire::ipv4_payload(packet);
        if !wire::is_ipv4(packet) {
            Net { stats: Stats { malformed: bump(self.stats.malformed), ..self.stats }, ..self }
        } else if self.config.verify_checksums && !ip.checksum_ok {
            Net {
                stats: Stats { bad_checksum: bump(self.stats.bad_checksum), ..self.stats },
                ..self
            }
        } else if ip.fragment {
            Net { stats: Stats { fragments: bump(self.stats.fragments), ..self.stats }, ..self }
        } else if self.for_dhcp(ip, payload) {
            if self.config.verify_checksums && !wire::udp_at(ip.src, ip.dst, payload).checksum_ok {
                Net {
                    stats: Stats { bad_checksum: bump(self.stats.bad_checksum), ..self.stats },
                    ..self
                }
            } else {
                self.dhcp_handled(now, wire::udp_payload(payload))
            }
        } else if !self.config.is_external(ip.dst) && !self.config.is_gateway(ip.dst) {
            Net { stats: Stats { not_for_us: bump(self.stats.not_for_us), ..self.stats }, ..self }
        } else if ip.proto == wire::PROTO_ICMP {
            self.icmp_handled::<U>(now, ip, payload)
        } else if ip.proto == wire::PROTO_UDP {
            self.udp_handled::<U>(now, ip, packet, payload)
        } else if ip.proto == wire::PROTO_TCP {
            self.tcp_handled::<U>(now, ip, payload)
        } else {
            Net { stats: Stats { ignored: bump(self.stats.ignored), ..self.stats }, ..self }
        }
    }

    #[verifier::opaque]
    pub open spec fn frame_handled<U: Upstream<Model = M>>(
        self,
        now: VirtualTime,
        frame: Seq<u8>,
    ) -> Self {
        let eth = wire::eth_at(frame);
        if frame.len() < 14 {
            Net { stats: Stats { malformed: bump(self.stats.malformed), ..self.stats }, ..self }
        } else if eth.dst != self.config.gateway_mac && eth.dst != Mac::all(0xFF) {
            Net { stats: Stats { not_for_us: bump(self.stats.not_for_us), ..self.stats }, ..self }
        } else {
            let a = if eth.src.b0 & 1 == 0 && eth.src != Mac::all(0) {
                Net { guest_mac: Some(eth.src), ..self }
            } else {
                self
            };
            if eth.ethertype == wire::ETHERTYPE_ARP {
                a.arp_handled(frame.skip(14))
            } else if eth.ethertype == wire::ETHERTYPE_IPV4 {
                a.ipv4_handled::<U>(now, frame.skip(14))
            } else if eth.ethertype == wire::ETHERTYPE_IPV6 {
                Net { stats: Stats { ipv6: bump(a.stats.ipv6), ..a.stats }, ..a }
            } else {
                Net { stats: Stats { ignored: bump(a.stats.ignored), ..a.stats }, ..a }
            }
        }
    }

    /// A frame of the guest arrives; a poll follows.
    pub open spec fn received<U: Upstream<Model = M>>(self, now: VirtualTime, frame: Seq<u8>) -> Self {
        (Net {
            stats: Stats { frames_in: bump(self.stats.frames_in), ..self.stats },
            ..self
        }).frame_handled::<U>(now, frame).polled::<U>(now)
    }

    /// Timers and exchanges with the upstream advance to `now`.
    #[verifier::opaque]
    pub open spec fn polled<U: Upstream<Model = M>>(self, now: VirtualTime) -> Self {
        let a = self.hosts_opened(0, self.host.conns.len(), now);
        let b = a.tcp_polled::<U>(0, a.tcp.len(), now);
        let c = udp_drained::<U>(b, now);
        c.udp_expired::<U>(0, c.udp.len(), now)
    }

    // ---- The host's connections -------------------------------------------------

    /// The flow of a host connection from the port `p` to the port `port`.
    pub open spec fn host_flow(self, port: u16, p: u16) -> Flow {
        Flow {
            guest: SocketAddrV4 { ip: self.config.guest_ip, port },
            remote: SocketAddrV4 { ip: self.config.gateway_ip, port: p },
        }
    }

    /// No connection uses the flow.
    pub open spec fn is_free(self, flow: Flow) -> bool {
        conn_of_flow(self.tcp_index, flow) is None && !awaited(self.host.conns, flow)
    }

    /// The first free ephemeral port among `n` from `p` on, going around.
    pub open spec fn free_port(self, port: u16, p: u16, n: nat) -> Option<u16>
        decreases n,
    {
        if n == 0 {
            None
        } else if self.is_free(self.host_flow(port, p)) {
            Some(p)
        } else {
            self.free_port(port, after_port(p), (n - 1) as nat)
        }
    }

    /// The host asks for a connection to a port of the guest.
    pub open spec fn host_connected(self, port: u16) -> (Self, Option<ConnId>) {
        match self.free_port(port, first_port(self.host.next_port), 16_384) {
            None => (self, None),
            Some(p) => (
                Net {
                    host: Ends {
                        conns: put(
                            self.host.conns,
                            self.next_id,
                            End::asked(self.host_flow(port, p)),
                        ),
                        next_port: after_port(p),
                    },
                    next_id: (self.next_id + 1) as u64,
                    ..self
                },
                Some(self.next_id),
            ),
        }
    }

    /// How a host connection stands.
    pub open spec fn host_state(self, id: ConnId) -> HostConnState {
        let e = value(self.host.conns, id);
        match e.closed {
            Some(reason) => HostConnState::Closed(reason),
            None => if e.pending_open || (keyed(self.tcp, id) && value(self.tcp, id).t.state
                == State::SynSent) {
                HostConnState::Connecting
            } else {
                HostConnState::Open
            },
        }
    }

    pub open spec fn with_end(self, id: ConnId, e: End) -> Self {
        Net { host: self.host.set(id, e), ..self }
    }
}

/// The ephemeral port to start from.
pub open spec fn first_port(p: u16) -> u16 {
    if p >= FIRST_EPHEMERAL_PORT { p } else { FIRST_EPHEMERAL_PORT }
}

/// The ephemeral port after `p`, going around.
pub open spec fn after_port(p: u16) -> u16 {
    if p == 65_535 { FIRST_EPHEMERAL_PORT } else { (p + 1) as u16 }
}

impl Ends {
    /// The connection `id` is over: its end learns why, and goes if the host had
    /// released it.
    pub open spec fn ended(self, id: ConnId, reason: Option<CloseReason>) -> Ends {
        if !keyed(self.conns, id) {
            self
        } else if value(self.conns, id).released {
            Ends { conns: self.conns.remove(rank(self.conns, id)), ..self }
        } else {
            self.set(id, End { closed: reason, ..value(self.conns, id) })
        }
    }
}

/// All the answers that the upstream has ready go to the guest, in order.
pub open spec fn udp_drained<U: Upstream>(s: Net<U::Model>, now: VirtualTime) -> Net<U::Model>
    decreases U::udp_ready(s.up),
    via udp_drained_terminates::<U>
{
    let a = Net { up: U::udp_next(s.up, now), ..s };
    match U::udp_result(s.up, now) {
        None => a,
        Some((id, data)) => udp_drained::<U>(a.udp_delivered(now, id, data), now),
    }
}

#[via_fn]
proof fn udp_drained_terminates<U: Upstream>(s: Net<U::Model>, now: VirtualTime) {
    U::udp_drains(s.up, now);
    reveal(Net::udp_delivered);
    reveal(Net::sent_udp);
    reveal(Net::answer_logged);
}

} // verus!
