//! The guest's frames: what the gateway does with each.
use vstd::prelude::*;
use crate::net::addr::{ConnId, Flow, Ipv4Addr, Mac, SocketAddrV4, VirtualTime};
use crate::net::dhcp;
use crate::net::events::{push_event, DhcpMessage, Direction, EventKind};
use crate::net::gateway::{quoted, Net, UdpFlow};
use crate::net::stack::{lemma_put_wf, lemma_sent_segments_keeps, ConnOp, Stack};
use crate::net::tcp::{segs, Seg, Segment, State, TcpConn};
use crate::net::upstream::Upstream;
use crate::net::wire;
use crate::net::wire::{Arp, Ipv4Header, TcpHeader, TCP_ACK, TCP_FIN, TCP_RST, TCP_SYN};

verus! {

/// The part of a packet that an ICMP error quotes.
fn quoted_part(packet: &[u8]) -> (r: &[u8])
    requires
        packet@.len() >= 20,
    ensures
        r@ == quoted(packet@),
{
    let ihl: usize = (packet[0] % 16) as usize * 4;
    let n: usize = packet.len();
    let m: usize = if ihl + 8 <= n { ihl + 8 } else { n };
    let r = vstd::slice::slice_subrange(packet, 0, m);
    assert(r@ =~= quoted(packet@));
    r
}

impl<U: Upstream> Stack<U> {
    /// Frame transmitted by the guest. A poll follows.
    pub fn receive(&mut self, now: VirtualTime, frame: &[u8])
        requires
            old(self).wf(),
            old(self).next_id < u64::MAX,
        ensures
            final(self)@ == old(self)@.received::<U>(now, frame@),
            final(self).wf(),
    {
        self.stats.frames_in = self.stats.frames_in.wrapping_add(1);
        self.handle_frame(now, frame);
        self.poll(now);
    }

    fn handle_frame(&mut self, now: VirtualTime, frame: &[u8])
        requires
            old(self).wf(),
            old(self).next_id < u64::MAX,
        ensures
            final(self)@ == old(self)@.frame_handled::<U>(now, frame@),
            final(self).wf(),
    {
        reveal(Net::frame_handled);
        let (eth, payload): (wire::EthHeader, &[u8]) = match wire::parse_eth(frame) {
            Some(x) => x,
            None => {
                self.stats.malformed = self.stats.malformed.wrapping_add(1);
                return;
            },
        };
        if eth.dst != self.config.gateway_mac && !eth.dst.is_broadcast() {
            self.stats.not_for_us = self.stats.not_for_us.wrapping_add(1);
            return;
        }
        if !eth.src.is_multicast() && eth.src != Mac::zero() {
            self.guest_mac = Some(eth.src);
        }
        if eth.ethertype == wire::ETHERTYPE_ARP {
            self.handle_arp(payload);
        } else if eth.ethertype == wire::ETHERTYPE_IPV4 {
            self.handle_ipv4(now, payload);
        } else if eth.ethertype == wire::ETHERTYPE_IPV6 {
            self.stats.ipv6 = self.stats.ipv6.wrapping_add(1);
        } else {
            self.stats.ignored = self.stats.ignored.wrapping_add(1);
        }
    }

    fn handle_arp(&mut self, payload: &[u8])
        requires
            old(self).wf(),
        ensures
            final(self)@ == old(self)@.arp_handled(payload@),
            final(self).wf(),
    {
        reveal(Net::arp_handled);
        let arp: Arp = match wire::parse_arp(payload) {
            Some(a) => a,
            None => {
                self.stats.malformed = self.stats.malformed.wrapping_add(1);
                return;
            },
        };
        if arp.op != wire::ARP_REQUEST || !self.config.is_gateway_addr(arp.target_ip) {
            self.stats.ignored = self.stats.ignored.wrapping_add(1);
            return;
        }
        let reply: Vec<u8> = wire::build_arp(
            &Arp {
                op: wire::ARP_REPLY,
                sender_mac: self.config.gateway_mac,
                sender_ip: arp.target_ip,
                target_mac: arp.sender_mac,
                target_ip: arp.sender_ip,
            },
        );
        self.send_eth(arp.sender_mac, wire::ETHERTYPE_ARP, reply.as_slice());
    }

    #[verifier::spinoff_prover]
    #[verifier::rlimit(60)]
    fn handle_ipv4(&mut self, now: VirtualTime, packet: &[u8])
        requires
            old(self).wf(),
            old(self).next_id < u64::MAX,
        ensures
            final(self)@ == old(self)@.ipv4_handled::<U>(now, packet@),
            final(self).wf(),
    {
        reveal(Net::ipv4_handled);
        let (ip, payload): (Ipv4Header, &[u8]) = match wire::parse_ipv4(packet) {
            Some(x) => x,
            None => {
                self.stats.malformed = self.stats.malformed.wrapping_add(1);
                return;
            },
        };
        if self.config.verify_checksums && !ip.checksum_ok {
            self.stats.bad_checksum = self.stats.bad_checksum.wrapping_add(1);
            return;
        }
        if ip.fragment {
            self.stats.fragments = self.stats.fragments.wrapping_add(1);
            return;
        }
        if ip.proto == wire::PROTO_UDP && (ip.dst.is_broadcast() || ip.dst
            == self.config.gateway_ip) {
            if let Some((udp, data)) = wire::parse_udp(ip.src, ip.dst, payload) {
                if udp.dst_port == dhcp::SERVER_PORT {
                    if self.config.verify_checksums && !udp.checksum_ok {
                        self.stats.bad_checksum = self.stats.bad_checksum.wrapping_add(1);
                        return;
                    }
                    self.handle_dhcp(now, data);
                    return;
                }
            }
        }
        if !self.config.is_outside(ip.dst) && !self.config.is_gateway_addr(ip.dst) {
            self.stats.not_for_us = self.stats.not_for_us.wrapping_add(1);
            return;
        }
        if ip.proto == wire::PROTO_ICMP {
            self.handle_icmp(now, &ip, payload);
        } else if ip.proto == wire::PROTO_UDP {
            self.handle_udp(now, &ip, packet, payload);
        } else if ip.proto == wire::PROTO_TCP {
            self.handle_tcp(now, &ip, payload);
        } else {
            self.stats.ignored = self.stats.ignored.wrapping_add(1);
        }
    }

    fn handle_icmp(&mut self, now: VirtualTime, ip: &Ipv4Header, msg: &[u8])
        requires
            old(self).wf(),
        ensures
            final(self)@ == old(self)@.icmp_handled::<U>(now, *ip, msg@),
            final(self).wf(),
    {
        reveal(Net::icmp_handled);
        if msg.len() < 8 {
            self.stats.malformed = self.stats.malformed.wrapping_add(1);
            return;
        }
        if self.config.verify_checksums && wire::checksum(msg) != 0 {
            self.stats.bad_checksum = self.stats.bad_checksum.wrapping_add(1);
            return;
        }
        if msg[0] != wire::ICMP_ECHO_REQUEST || msg[1] != 0 {
            self.stats.ignored = self.stats.ignored.wrapping_add(1);
            return;
        }
        let answered: bool = self.config.is_gateway_addr(ip.dst) || self.upstream.ping(now, ip.dst);
        push_event(&mut self.fx.log, now, EventKind::IcmpEcho { dst: ip.dst, answered });
        if answered {
            let rest: [u8; 4] = [msg[4], msg[5], msg[6], msg[7]];
            assert(rest@ =~= msg@.subrange(4, 8));
            let data: &[u8] = vstd::slice::slice_subrange(msg, 8, msg.len());
            assert(data@ =~= msg@.skip(8));
            let reply: Vec<u8> = wire::build_icmp(wire::ICMP_ECHO_REPLY, 0, rest, data);
            self.send_ipv4(ip.dst, ip.src, wire::PROTO_ICMP, reply.as_slice());
        }
    }

    fn handle_dhcp(&mut self, now: VirtualTime, data: &[u8])
        requires
            old(self).wf(),
        ensures
            final(self)@ == old(self)@.dhcp_handled(now, data@),
            final(self).wf(),
    {
        reveal(Net::dhcp_handled);
        let req: dhcp::Packet = match dhcp::parse(data) {
            Some(p) => p,
            None => {
                self.stats.malformed = self.stats.malformed.wrapping_add(1);
                return;
            },
        };
        if req.chaddr != Mac::zero() && !req.chaddr.is_multicast() {
            self.guest_mac = Some(req.chaddr);
        }
        let release: bool = match req.message_type {
            Some(t) => t == dhcp::RELEASE,
            None => false,
        };
        let decline: bool = match req.message_type {
            Some(t) => t == dhcp::DECLINE,
            None => false,
        };
        if release || decline {
            let ip: Ipv4Addr = match req.requested_ip {
                Some(ip) => ip,
                None => req.ciaddr,
            };
            let message = if release { DhcpMessage::Release } else { DhcpMessage::Decline };
            push_event(
                &mut self.fx.log,
                now,
                EventKind::Dhcp { message, mac: req.chaddr, ip, hostname: req.hostname },
            );
            return;
        }
        let lease: dhcp::Lease = self.config.dhcp_lease();
        let reply: dhcp::Reply = match dhcp::respond(&req, &lease) {
            Some(r) => r,
            None => {
                self.stats.ignored = self.stats.ignored.wrapping_add(1);
                return;
            },
        };
        let message = if reply.message_type == dhcp::OFFER {
            DhcpMessage::Offer
        } else if reply.message_type == dhcp::ACK {
            DhcpMessage::Ack
        } else {
            DhcpMessage::Nak
        };
        push_event(
            &mut self.fx.log,
            now,
            EventKind::Dhcp {
                message,
                mac: req.chaddr,
                ip: reply.yiaddr,
                hostname: req.hostname,
            },
        );
        let server: Ipv4Addr = self.config.gateway_ip;
        let udp: Vec<u8> = wire::build_udp(
            server,
            dhcp::SERVER_PORT,
            reply.dst_ip,
            dhcp::CLIENT_PORT,
            reply.packet.as_slice(),
        );
        self.send_ipv4_to(reply.dst_mac, server, reply.dst_ip, wire::PROTO_UDP, udp.as_slice());
    }

    fn handle_udp(&mut self, now: VirtualTime, ip: &Ipv4Header, packet: &[u8], segment: &[u8])
        requires
            old(self).wf(),
            old(self).next_id < u64::MAX,
            packet@.len() >= 20,
        ensures
            final(self)@ == old(self)@.udp_handled::<U>(now, *ip, packet@, segment@),
            final(self).wf(),
    {
        reveal(Net::udp_handled);
        let (udp, data): (wire::UdpHeader, &[u8]) = match wire::parse_udp(ip.src, ip.dst, segment) {
            Some(x) => x,
            None => {
                self.stats.malformed = self.stats.malformed.wrapping_add(1);
                return;
            },
        };
        if self.config.verify_checksums && !udp.checksum_ok {
            self.stats.bad_checksum = self.stats.bad_checksum.wrapping_add(1);
            return;
        }
        let flow = Flow {
            guest: SocketAddrV4::new(ip.src, udp.src_port),
            remote: SocketAddrV4::new(ip.dst, udp.dst_port),
        };
        if self.config.is_gateway_addr(ip.dst) && flow.remote != self.config.dns_socket() {
            let none: [u8; 4] = [0, 0, 0, 0];
            assert(none@ =~= seq![0u8, 0, 0, 0]);
            let msg: Vec<u8> = wire::build_icmp(
                wire::ICMP_DEST_UNREACHABLE,
                wire::ICMP_PORT_UNREACHABLE,
                none,
                quoted_part(packet),
            );
            self.send_ipv4(ip.dst, ip.src, wire::PROTO_ICMP, msg.as_slice());
            return;
        }
        self.take_udp(now, flow, data);
    }

    fn take_udp(&mut self, now: VirtualTime, flow: Flow, data: &[u8])
        requires
            old(self).wf(),
            old(self).next_id < u64::MAX,
        ensures
            final(self)@ == old(self)@.udp_taken::<U>(now, flow, data@),
            final(self).wf(),
    {
        reveal(Net::udp_taken);
        let id: ConnId;
        if let Some(known) = self.udp_index.get(flow) {
            id = known;
            if let Some(i) = self.udp.find(id) {
                let f: &mut UdpFlow = self.udp.slot(i);
                f.last_activity = now;
                f.bytes_to_remote = f.bytes_to_remote.wrapping_add(data.len() as u64);
            }
        } else {
            id = self.next_id;
            self.next_id = self.next_id + 1;
            let first: u64 = 0;
            let f = UdpFlow {
                flow,
                last_activity: now,
                bytes_to_remote: first.wrapping_add(data.len() as u64),
                bytes_to_guest: 0,
            };
            self.udp_index.insert(flow, id);
            self.udp.insert(id, f);
            push_event(&mut self.fx.log, now, EventKind::UdpOpen { id, flow });
        }
        push_event(
            &mut self.fx.log,
            now,
            EventKind::UdpData { id, dir: Direction::ToRemote, len: data.len() },
        );
        if flow.remote == self.config.dns_socket() {
            self.log_question(now, id, data);
        }
        self.upstream.udp_send(now, id, flow, data);
    }

    /// A SYN of the guest opens a connection.
    fn open_tcp(&mut self, now: VirtualTime, flow: Flow, h: &TcpHeader)
        requires
            old(self).wf(),
            old(self).next_id < u64::MAX,
        ensures
            final(self)@ == old(self)@.tcp_opened::<U>(now, flow, *h),
            final(self).wf(),
    {
        reveal(Net::tcp_opened);
        let id: ConnId = self.next_id;
        self.next_id = self.next_id + 1;
        let iss: u32 = self.config.initial_seq(id);
        let local_mss: u16 = self.config.mtu - 40;
        let mut conn = TcpConn::new(
            id,
            flow,
            h,
            iss,
            local_mss,
            now,
            self.config.tcp_connect_timeout_us,
        );
        push_event(&mut self.fx.log, now, EventKind::TcpOpen { id, flow });
        self.upstream.tcp_open(now, id, flow);
        assert(segs(self.fx.out@) =~= Seq::<Seg>::empty());
        conn.process(now, &mut self.upstream, &mut self.fx);
        proof {
            lemma_sent_segments_keeps(self@, flow, segs(self.fx.out@));
        }
        self.emit_segments(flow);
        if !conn.is_closed() {
            proof {
                lemma_put_wf(self@.tcp, id, conn@);
            }
            self.tcp_index.insert(flow, id);
            self.tcp.insert(id, conn);
        }
    }

    fn handle_tcp(&mut self, now: VirtualTime, ip: &Ipv4Header, segment: &[u8])
        requires
            old(self).wf(),
            old(self).next_id < u64::MAX,
            segment@.len() <= 65_535,
        ensures
            final(self)@ == old(self)@.tcp_handled::<U>(now, *ip, segment@),
            final(self).wf(),
    {
        reveal(Net::tcp_handled);
        let (h, payload): (TcpHeader, &[u8]) = match wire::parse_tcp(ip.src, ip.dst, segment) {
            Some(x) => x,
            None => {
                self.stats.malformed = self.stats.malformed.wrapping_add(1);
                return;
            },
        };
        if self.config.verify_checksums && !h.checksum_ok {
            self.stats.bad_checksum = self.stats.bad_checksum.wrapping_add(1);
            return;
        }
        let flow = Flow {
            guest: SocketAddrV4::new(ip.src, h.src_port),
            remote: SocketAddrV4::new(ip.dst, h.dst_port),
        };
        self.dispatch_tcp(now, flow, &h, payload);
    }

    /// A segment for the connection `id`, if there is one.
    fn give_tcp(&mut self, now: VirtualTime, id: ConnId, flow: Flow, h: &TcpHeader, payload: &[u8])
        requires
            old(self).wf(),
            payload@.len() <= 65_535,
        ensures
            final(self)@ == old(self)@.tcp_given::<U>(now, id, flow, *h, payload@),
            final(self).wf(),
            final(self).next_id == old(self).next_id,
    {
        reveal(Net::tcp_given);
        if let Some(i) = self.tcp.find(id) {
            let new_syn: bool = h.has(TCP_SYN) && !h.has(TCP_ACK) && !h.has(TCP_RST);
            assert(self@.tcp[i as int].1 == self.tcp.entries@[i as int].1@);
            if self.tcp.entries[i].1.t.state == State::TimeWait && new_syn {
                self.step_conn(i, flow, now, ConnOp::EndTimeWait);
            } else {
                self.step_conn(i, flow, now, ConnOp::Input(h, payload));
            }
        }
    }

    #[verifier::spinoff_prover]
    #[verifier::rlimit(40)]
    fn dispatch_tcp(&mut self, now: VirtualTime, flow: Flow, h: &TcpHeader, payload: &[u8])
        requires
            old(self).wf(),
            old(self).next_id < u64::MAX,
            payload@.len() <= 65_535,
        ensures
            final(self)@ == old(self)@.tcp_dispatched::<U>(now, flow, *h, payload@),
            final(self).wf(),
    {
        reveal(Net::tcp_dispatched);
        let new_syn: bool = h.has(TCP_SYN) && !h.has(TCP_ACK) && !h.has(TCP_RST);
        if let Some(id) = self.tcp_index.get(flow) {
            self.give_tcp(now, id, flow, h, payload);
            if new_syn && self.tcp_index.get(flow).is_none() {
                self.open_tcp(now, flow, h);
            }
            return;
        }
        if new_syn {
            self.open_tcp(now, flow, h);
            return;
        }
        if h.has(TCP_RST) {
            return;
        }
        self.refuse_tcp(flow, h, payload.len());
    }

    /// Answers a segment that belongs to no connection.
    fn refuse_tcp(&mut self, flow: Flow, h: &TcpHeader, len: usize)
        requires
            old(self).wf(),
            len <= 65_535,
        ensures
            final(self)@ == old(self)@.tcp_refused(flow, *h, len as nat),
            final(self).wf(),
    {
        self.stats.tcp_rst_unknown = self.stats.tcp_rst_unknown.wrapping_add(1);
        let s: Segment = stray_answer(h, len);
        self.send_segment(flow, &s);
    }
}

/// The RST for a segment that belongs to no connection.
fn stray_answer(h: &TcpHeader, len: usize) -> (r: Segment)
    requires
        len <= 65_535,
    ensures
        r@ == crate::net::gateway::stray_reset(*h, len as nat),
{
    let payload: Vec<u8> = Vec::new();
    assert(payload@ =~= Seq::<u8>::empty());
    if h.has(TCP_ACK) {
        Segment { seq: h.ack, ack: 0, flags: TCP_RST, window: 0, mss: None, payload }
    } else {
        let syn: u32 = if h.has(TCP_SYN) { 1 } else { 0 };
        let fin: u32 = if h.has(TCP_FIN) { 1 } else { 0 };
        let l: u32 = len as u32 + syn + fin;
        let ack: u32 = crate::net::tcp::seq_add(h.seq, l);
        Segment { seq: 0, ack, flags: TCP_RST | TCP_ACK, window: 0, mss: None, payload }
    }
}

} // verus!
