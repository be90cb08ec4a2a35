//! What the gateway does with the packets of the guest, and what it sends to it.
use vstd::prelude::*;
use crate::net::addr::{ConnId, Flow, Ipv4Addr, Mac, SocketAddrV4, VirtualTime};
use crate::net::dhcp;
use crate::net::events::{CloseReason, Direction, Event, Fact};
use crate::net::flows::{conn_of_flow, flows_ordered, law_filed_flow_is_found, law_unfiled_flow_is_gone};
use crate::net::gateway::{Net, Stats, UdpFlow};
use crate::net::tcp::{wadd, Conn, Seg, State, World};
use crate::net::upstream::{TcpStatus, Upstream};
use crate::net::wire;
use crate::net::wire::{Ipv4Header, TcpHeader, TCP_ACK, TCP_FIN, TCP_RST, TCP_SYN};
use crate::table::{keyed, law_table_put, ordered, put, rank, value};

verus! {

/// The frame `f` is an IPv4 packet from the gateway's MAC to `mac`, from `src` to
/// `dst`, with this protocol and payload, and a good checksum.
pub open spec fn is_packet<M>(
    s: Net<M>,
    f: Seq<u8>,
    mac: Mac,
    src: Ipv4Addr,
    dst: Ipv4Addr,
    proto: u8,
    payload: Seq<u8>,
) -> bool {
    let ip = wire::ipv4_at(f.skip(14));
    &&& f.len() >= 14
    &&& wire::eth_at(f).dst == mac && wire::eth_at(f).src == s.config.gateway_mac
    &&& wire::eth_at(f).ethertype == 0x0800
    &&& wire::is_ipv4(f.skip(14))
    &&& ip.src == src && ip.dst == dst && ip.proto == proto && ip.checksum_ok && !ip.fragment
    &&& wire::ipv4_payload(f.skip(14)) == payload
}

/// One frame more has left, and it is the last.
pub open spec fn one_more<M>(s: Net<M>, t: Net<M>) -> bool {
    &&& t.out.len() == s.out.len() + 1
    &&& t.out.drop_last() == s.out
    &&& t.stats.frames_out == (s.stats.frames_out + 1) % 0x1_0000_0000_0000_0000
}

/// Where frames for the guest go: to the MAC it was last heard from, or to all.
pub open spec fn guest_mac_of<M>(s: Net<M>) -> Mac {
    match s.guest_mac {
        Some(m) => m,
        None => Mac::all(0xFF),
    }
}

proof fn lemma_packet_leaves<M>(
    s: Net<M>,
    mac: Mac,
    src: Ipv4Addr,
    dst: Ipv4Addr,
    proto: u8,
    payload: Seq<u8>,
)
    requires
        20 + payload.len() <= 0xffff,
    ensures
        ({
            let t = s.sent_ipv4_to(mac, src, dst, proto, payload);
            &&& one_more(s, t)
            &&& is_packet(s, t.out.last(), mac, src, dst, proto, payload)
            &&& t.ip_ident == (s.ip_ident + 1) % 0x1_0000
            &&& t.log == s.log && t.up == s.up && t.tcp == s.tcp && t.udp == s.udp
            &&& t.tcp_index == s.tcp_index && t.udp_index == s.udp_index
            &&& t.host == s.host && t.next_id == s.next_id && t.config == s.config
            &&& t.guest_mac == s.guest_mac
        }),
{
    let t = s.sent_ipv4_to(mac, src, dst, proto, payload);
    let ident = ((s.ip_ident + 1) % 0x1_0000) as u16;
    let p = wire::ipv4_packet(src, dst, proto, ident, payload);
    wire::law_ipv4_round_trip(src, dst, proto, ident, payload);
    wire::law_eth_round_trip(mac, s.config.gateway_mac, 0x0800, p);
    assert(t.out.drop_last() =~= s.out);
}

/// Frames that leave carry consecutive identifications, so that no two of them
/// that follow each other look alike.
pub proof fn law_packets_are_numbered<M>(
    s: Net<M>,
    mac: Mac,
    src: Ipv4Addr,
    dst: Ipv4Addr,
    proto: u8,
    payload: Seq<u8>,
)
    requires
        20 + payload.len() <= 0xffff,
    ensures
        ({
            let t = s.sent_ipv4_to(mac, src, dst, proto, payload);
            &&& is_packet(s, t.out.last(), mac, src, dst, proto, payload)
            &&& wire::ipv4_at(t.out.last().skip(14)).ident == (s.ip_ident + 1) % 0x1_0000
            &&& t.ip_ident == (s.ip_ident + 1) % 0x1_0000
        }),
{
    lemma_packet_leaves(s, mac, src, dst, proto, payload);
    let ident = ((s.ip_ident + 1) % 0x1_0000) as u16;
    let p = wire::ipv4_packet(src, dst, proto, ident, payload);
    wire::law_ipv4_round_trip(src, dst, proto, ident, payload);
    wire::law_eth_round_trip(mac, s.config.gateway_mac, 0x0800, p);
}

/// The gateway learns the guest's MAC from its frames, unless it is a group address
/// or zero; IPv6 frames and those of other kinds are counted and dropped.
pub proof fn law_frames_are_sorted<U: Upstream>(s: Net<U::Model>, now: VirtualTime, frame: Seq<u8>)
    requires
        frame.len() >= 14,
        wire::eth_at(frame).dst == s.config.gateway_mac || wire::eth_at(frame).dst == Mac::all(
            0xFF,
        ),
    ensures
        ({
            let t = s.frame_handled::<U>(now, frame);
            let eth = wire::eth_at(frame);
            let heard = if eth.src.b0 % 2 == 0 && eth.src != Mac::all(0) {
                Some(eth.src)
            } else {
                s.guest_mac
            };
            let a = Net { guest_mac: heard, ..s };
            &&& eth.ethertype == 0x0806 ==> t == a.arp_handled(frame.skip(14))
            &&& eth.ethertype == 0x0800 ==> t == a.ipv4_handled::<U>(now, frame.skip(14))
            &&& eth.ethertype == 0x86dd ==> t == (Net {
                stats: Stats {
                    ipv6: ((s.stats.ipv6 + 1) % 0x1_0000_0000_0000_0000) as u64,
                    ..s.stats
                },
                ..a
            })
            &&& eth.ethertype != 0x0806 && eth.ethertype != 0x0800 && eth.ethertype != 0x86dd ==> t
                == (Net {
                stats: Stats {
                    ignored: ((s.stats.ignored + 1) % 0x1_0000_0000_0000_0000) as u64,
                    ..s.stats
                },
                ..a
            })
        }),
{
    reveal(Net::frame_handled);
    let b = wire::eth_at(frame).src.b0;
    assert((b & 1 == 0) == (b % 2 == 0)) by (bit_vector);
}

/// Which packets are for the gateway: a good one to it, to its name server or to
/// an outside address is given to its protocol; one to another address of the
/// virtual network, to a group or to all is not, nor one of an unknown protocol.
pub proof fn law_packets_are_sorted<U: Upstream>(s: Net<U::Model>, now: VirtualTime, packet: Seq<u8>)
    requires
        wire::is_ipv4(packet),
        wire::ipv4_at(packet).checksum_ok,
        !wire::ipv4_at(packet).fragment,
    ensures
        ({
            let t = s.ipv4_handled::<U>(now, packet);
            let ip = wire::ipv4_at(packet);
            let data = wire::ipv4_payload(packet);
            let own = ip.dst == s.config.gateway_ip || ip.dst == s.config.dns_ip;
            let near = ip.dst.bits & s.config.netmask.bits == s.config.gateway_ip.bits
                & s.config.netmask.bits;
            let ours = own || (!near && ip.dst.bits != 0xFFFF_FFFF && !ip.dst.multicast());
            let dhcp = ip.proto == 17 && (ip.dst.bits == 0xFFFF_FFFF || ip.dst
                == s.config.gateway_ip) && wire::is_udp(data) && wire::udp_at(
                ip.src,
                ip.dst,
                data,
            ).dst_port == 67;
            &&& dhcp && wire::udp_at(ip.src, ip.dst, data).checksum_ok ==> t == s.dhcp_handled(
                now,
                wire::udp_payload(data),
            )
            &&& !dhcp && ours && ip.proto == 1 ==> t == s.icmp_handled::<U>(now, ip, data)
            &&& !dhcp && ours && ip.proto == 17 ==> t == s.udp_handled::<U>(now, ip, packet, data)
            &&& !dhcp && ours && ip.proto == 6 ==> t == s.tcp_handled::<U>(now, ip, data)
            &&& !dhcp && (!ours || (ip.proto != 1 && ip.proto != 17 && ip.proto != 6)) ==> t == (Net {
                stats: t.stats,
                ..s
            })
        }),
{
    reveal(Net::ipv4_handled);
}

proof fn lemma_message_shape(ty: u8, code: u8, rest: Seq<u8>, data: Seq<u8>)
    requires
        rest.len() == 4,
    ensures
        ({
            let m = wire::icmp_message(ty, code, rest, data);
            &&& m.len() == 8 + data.len()
            &&& m[0] == ty && m[1] == code
            &&& m.skip(4) == rest + data
            &&& m.skip(8) == data
            &&& wire::spec_checksum(m) == 0
        }),
{
    let m = wire::icmp_message(ty, code, rest, data);
    wire::law_icmp_checksum_verifies(ty, code, rest, data);
    assert(m.skip(4) =~= rest + data);
    assert(m.skip(8) =~= data);
}

/// An echo to an outside address is put to the upstream, once, and answered if it
/// says so, as the remote would: from that address, with the same identifier,
/// number and data and a good checksum. The gateway and its name server answer
/// for themselves. Either way it is logged.
pub proof fn law_echo<U: Upstream>(s: Net<U::Model>, now: VirtualTime, ip: Ipv4Header, msg: Seq<u8>)
    requires
        8 <= msg.len() <= 65_515,
        msg[0] == 8 && msg[1] == 0,
        wire::spec_checksum(msg) == 0,
    ensures
        ({
            let t = s.icmp_handled::<U>(now, ip, msg);
            let own = ip.dst == s.config.gateway_ip || ip.dst == s.config.dns_ip;
            let answered = own || U::ping_answer(s.up, now, ip.dst);
            let reply = wire::ipv4_payload(t.out.last().skip(14));
            &&& t.up == if own { s.up } else { U::ping_next(s.up, now, ip.dst) }
            &&& t.log == s.log.push(
                Event { at: now, kind: Fact::IcmpEcho { dst: ip.dst, answered } },
            )
            &&& !answered ==> t.out == s.out
            &&& answered ==> {
                &&& one_more(s, t)
                &&& is_packet(s, t.out.last(), guest_mac_of(s), ip.dst, ip.src, 1, reply)
                &&& reply.len() == msg.len()
                &&& reply[0] == 0 && reply[1] == 0
                &&& reply.skip(4) == msg.skip(4)
                &&& wire::spec_checksum(reply) == 0
            }
        }),
{
    reveal(Net::icmp_handled);
    let own = ip.dst == s.config.gateway_ip || ip.dst == s.config.dns_ip;
    let answered = own || U::ping_answer(s.up, now, ip.dst);
    let reply = wire::icmp_message(0, 0, msg.subrange(4, 8), msg.skip(8));
    let a = (Net {
        up: if own { s.up } else { U::ping_next(s.up, now, ip.dst) },
        ..s
    }).logged(now, Fact::IcmpEcho { dst: ip.dst, answered });
    lemma_message_shape(0, 0, msg.subrange(4, 8), msg.skip(8));
    lemma_packet_leaves(a, guest_mac_of(s), ip.dst, ip.src, 1, reply);
    assert(msg.subrange(4, 8) + msg.skip(8) =~= msg.skip(4));
    let t = s.icmp_handled::<U>(now, ip, msg);
    if answered {
        assert(t == a.sent_ipv4_to(guest_mac_of(s), ip.dst, ip.src, 1, reply));
        assert(wire::ipv4_payload(t.out.last().skip(14)) == reply);
    }
}

/// A message that is no echo request, or too short, is not answered.
pub proof fn law_other_icmp_is_dropped<U: Upstream>(
    s: Net<U::Model>,
    now: VirtualTime,
    ip: Ipv4Header,
    msg: Seq<u8>,
)
    requires
        msg.len() < 8 || msg[0] != 8 || msg[1] != 0,
    ensures
        ({
            let t = s.icmp_handled::<U>(now, ip, msg);
            t == (Net { stats: t.stats, ..s }) && t.stats.frames_out == s.stats.frames_out
        }),
{
    reveal(Net::icmp_handled);
}

/// A datagram of the guest to an outside address (or to the name server) reaches
/// the upstream, with its data and its flow, under the number of that flow: that of
/// the first one, if the flow is known, or else a new one, which is logged and
/// found again. It is logged and counted.
pub proof fn law_datagram_reaches_the_upstream<U: Upstream>(
    s: Net<U::Model>,
    now: VirtualTime,
    flow: Flow,
    data: Seq<u8>,
)
    requires
        ordered(s.udp),
        flows_ordered(s.udp_index),
        flow.remote != (SocketAddrV4 { ip: s.config.dns_ip, port: 53 }),
        s.next_id < u64::MAX,
        conn_of_flow(s.udp_index, flow) matches Some(id) ==> keyed(s.udp, id),
    ensures
        ({
            let t = s.udp_taken::<U>(now, flow, data);
            let known = conn_of_flow(s.udp_index, flow);
            let id = match known {
                Some(id) => id,
                None => s.next_id,
            };
            let sent = Event {
                at: now,
                kind: Fact::UdpData { id, dir: Direction::ToRemote, len: data.len() as usize },
            };
            &&& t.up == U::udp_sent(s.up, now, id, flow, data)
            &&& conn_of_flow(t.udp_index, flow) == Some(id)
            &&& keyed(t.udp, id) && value(t.udp, id).last_activity == now
            &&& t.out == s.out && t.tcp == s.tcp && t.host == s.host
            &&& known is Some ==> {
                &&& t.next_id == s.next_id
                &&& t.log == s.log.push(sent)
                &&& value(t.udp, id).flow == value(s.udp, id).flow
                &&& value(t.udp, id).bytes_to_remote == (value(s.udp, id).bytes_to_remote
                    + data.len()) % 0x1_0000_0000_0000_0000
                &&& value(t.udp, id).bytes_to_guest == value(s.udp, id).bytes_to_guest
            }
            &&& known is None ==> {
                &&& t.next_id == s.next_id + 1
                &&& t.log == s.log.push(Event { at: now, kind: Fact::UdpOpen { id, flow } }).push(
                    sent,
                )
                &&& value(t.udp, id).flow == flow
                &&& value(t.udp, id).bytes_to_remote == data.len() % 0x1_0000_0000_0000_0000
                &&& value(t.udp, id).bytes_to_guest == 0
            }
        }),
{
    reveal(Net::udp_taken);
    let known = conn_of_flow(s.udp_index, flow);
    let id = match known {
        Some(id) => id,
        None => s.next_id,
    };
    let f = if known is Some {
        value(s.udp, id)
    } else {
        UdpFlow { flow, last_activity: now, bytes_to_remote: 0, bytes_to_guest: 0 }
    };
    let g = UdpFlow {
        last_activity: now,
        bytes_to_remote: crate::net::tcp::count64(f.bytes_to_remote, data.len()),
        ..f
    };
    law_table_put(s.udp, id, g, id);
    law_filed_flow_is_found(s.udp_index, flow, id);
}

/// The first `n` bytes of `p`, or all of them if there are fewer.
pub open spec fn at_most(p: Seq<u8>, n: int) -> Seq<u8> {
    if n <= p.len() {
        p.take(n)
    } else {
        p
    }
}

proof fn lemma_quote(packet: Seq<u8>)
    requires
        wire::is_ipv4(packet),
    ensures
        crate::net::gateway::quoted(packet) == at_most(packet, wire::ihl_of(packet) + 8),
        at_most(packet, wire::ihl_of(packet) + 8).len() <= 68,
{
    assert(packet.take(packet.len() as int) =~= packet);
}

/// A datagram to a port of the gateway where nothing listens is answered with
/// ICMP "port unreachable", which quotes its header and the first 8 bytes behind
/// it; the upstream hears nothing of it.
pub proof fn law_closed_port_is_unreachable<U: Upstream>(
    s: Net<U::Model>,
    now: VirtualTime,
    ip: Ipv4Header,
    packet: Seq<u8>,
    segment: Seq<u8>,
)
    requires
        wire::is_udp(segment),
        wire::udp_at(ip.src, ip.dst, segment).checksum_ok,
        ip.dst == s.config.gateway_ip || ip.dst == s.config.dns_ip,
        !(ip.dst == s.config.dns_ip && wire::udp_at(ip.src, ip.dst, segment).dst_port == 53),
        wire::is_ipv4(packet),
    ensures
        ({
            let t = s.udp_handled::<U>(now, ip, packet, segment);
            let reply = wire::ipv4_payload(t.out.last().skip(14));
            let n = wire::ihl_of(packet) + 8;
            &&& t.up == s.up && t.log == s.log && t.udp == s.udp && t.udp_index == s.udp_index
            &&& one_more(s, t)
            &&& is_packet(s, t.out.last(), guest_mac_of(s), ip.dst, ip.src, 1, reply)
            &&& reply.len() >= 8 && reply[0] == 3 && reply[1] == 3
            &&& reply.skip(8) == at_most(packet, n)
            &&& wire::spec_checksum(reply) == 0
        }),
{
    reveal(Net::udp_handled);
    let n = wire::ihl_of(packet) + 8;
    let quote = at_most(packet, n);
    lemma_quote(packet);
    let zeros = seq![0u8, 0, 0, 0];
    let reply = wire::icmp_message(3, 3, zeros, quote);
    lemma_message_shape(3, 3, zeros, quote);
    lemma_packet_leaves(s, guest_mac_of(s), ip.dst, ip.src, 1, reply);
    let t = s.udp_handled::<U>(now, ip, packet, segment);
    assert(t == s.sent_ipv4_to(guest_mac_of(s), ip.dst, ip.src, 1, reply));
    assert(wire::ipv4_payload(t.out.last().skip(14)) == reply);
}

/// A datagram that the remote sends reaches the guest as it is: from the remote's
/// address and port to the guest's, on the flow that the guest opened; it is logged,
/// counted, and keeps the flow alive. One that does not fit the MTU, or whose flow
/// is gone, is dropped and counted.
pub proof fn law_datagram_reaches_the_guest<M>(
    s: Net<M>,
    now: VirtualTime,
    id: ConnId,
    data: Seq<u8>,
)
    requires
        ordered(s.udp),
        28 <= s.config.mtu <= 65_535,
        keyed(s.udp, id) ==> value(s.udp, id).flow.remote != (SocketAddrV4 {
            ip: s.config.dns_ip,
            port: 53,
        }),
    ensures
        ({
            let t = s.udp_delivered(now, id, data);
            let f = value(s.udp, id);
            let g = value(t.udp, id);
            let fits = keyed(s.udp, id) && data.len() + 28 <= s.config.mtu;
            let p = wire::ipv4_payload(t.out.last().skip(14));
            &&& !fits ==> t == (Net {
                stats: Stats {
                    udp_dropped: ((s.stats.udp_dropped + 1) % 0x1_0000_0000_0000_0000) as u64,
                    ..s.stats
                },
                ..s
            })
            &&& fits ==> {
                &&& one_more(s, t)
                &&& is_packet(
                    s,
                    t.out.last(),
                    guest_mac_of(s),
                    f.flow.remote.ip,
                    f.flow.guest.ip,
                    17,
                    p,
                )
                &&& wire::is_udp(p) && wire::udp_payload(p) == data
                &&& wire::udp_at(f.flow.remote.ip, f.flow.guest.ip, p).src_port == f.flow.remote.port
                &&& wire::udp_at(f.flow.remote.ip, f.flow.guest.ip, p).dst_port == f.flow.guest.port
                &&& wire::udp_at(f.flow.remote.ip, f.flow.guest.ip, p).checksum_ok
                &&& t.log == s.log.push(
                    Event {
                        at: now,
                        kind: Fact::UdpData {
                            id,
                            dir: Direction::ToGuest,
                            len: data.len() as usize,
                        },
                    },
                )
                &&& keyed(t.udp, id) && g.flow == f.flow && g.last_activity == now
                &&& g.bytes_to_guest == (f.bytes_to_guest + data.len()) % 0x1_0000_0000_0000_0000
                &&& g.bytes_to_remote == f.bytes_to_remote
            }
        }),
{
    reveal(Net::udp_delivered);
    reveal(Net::sent_udp);
    if keyed(s.udp, id) && data.len() + 28 <= s.config.mtu {
        let f = value(s.udp, id);
        let g = UdpFlow {
            last_activity: now,
            bytes_to_guest: crate::net::tcp::count64(f.bytes_to_guest, data.len()),
            ..f
        };
        law_table_put(s.udp, id, g, id);
        let a = (Net { udp: s.udp.update(rank(s.udp, id), (id, g)), ..s }).logged(
            now,
            Fact::UdpData { id, dir: Direction::ToGuest, len: data.len() as usize },
        );
        let p = wire::udp_datagram(
            f.flow.remote.ip,
            f.flow.remote.port,
            f.flow.guest.ip,
            f.flow.guest.port,
            data,
        );
        wire::law_udp_round_trip(
            f.flow.remote.ip,
            f.flow.remote.port,
            f.flow.guest.ip,
            f.flow.guest.port,
            data,
        );
        assert(p.len() == 8 + data.len());
        lemma_packet_leaves(a, guest_mac_of(s), f.flow.remote.ip, f.flow.guest.ip, 17, p);
    }
}

/// A UDP flow ends when nothing has passed for the idle time: it is forgotten,
/// logged with its counts, and the upstream is told. One that is not idle stays.
pub proof fn law_idle_flow_ends<U: Upstream>(s: Net<U::Model>, now: VirtualTime)
    requires
        s.udp.len() == 1,
        flows_ordered(s.udp_index),
        s.udp[0].1.last_activity.0 + s.config.udp_idle_timeout_us <= u64::MAX,
    ensures
        ({
            let t = s.udp_expired::<U>(0, 1, now);
            let (id, f) = s.udp[0];
            let idle = now.0 >= f.last_activity.0 + s.config.udp_idle_timeout_us;
            &&& !idle ==> t == s
            &&& idle ==> {
                &&& t.udp.len() == 0 && conn_of_flow(t.udp_index, f.flow) is None
                &&& t.up == U::udp_closed(s.up, now, id)
                &&& t.log == s.log.push(
                    Event {
                        at: now,
                        kind: Fact::UdpClosed {
                            id,
                            reason: CloseReason::Idle,
                            bytes_to_remote: f.bytes_to_remote,
                            bytes_to_guest: f.bytes_to_guest,
                        },
                    },
                )
                &&& t.out == s.out
            }
        }),
{
    reveal_with_fuel(Net::udp_expired, 3);
    law_unfiled_flow_is_gone(s.udp_index, s.udp[0].1.flow);
}

/// The frame `f` is a TCP segment for the guest on `flow`, with these fields.
pub open spec fn is_segment<M>(s: Net<M>, f: Seq<u8>, flow: Flow, g: Seg) -> bool {
    let p = wire::ipv4_payload(f.skip(14));
    let h = wire::tcp_at(flow.remote.ip, flow.guest.ip, p);
    &&& is_packet(s, f, guest_mac_of(s), flow.remote.ip, flow.guest.ip, 6, p)
    &&& wire::is_tcp(p)
    &&& h.src_port == flow.remote.port && h.dst_port == flow.guest.port
    &&& h.seq == g.seq && h.ack == g.ack && h.flags == g.flags && h.window == g.window
    &&& h.mss == g.mss && h.checksum_ok
    &&& p.skip(wire::data_offset(p)) == g.payload
}

proof fn lemma_segment_leaves<M>(s: Net<M>, flow: Flow, g: Seg)
    requires
        g.payload.len() <= 60_000,
    ensures
        ({
            let t = s.sent_segment(flow, g);
            &&& one_more(s, t)
            &&& is_segment(s, t.out.last(), flow, g)
            &&& t.log == s.log && t.up == s.up && t.tcp == s.tcp && t.udp == s.udp
            &&& t.tcp_index == s.tcp_index && t.udp_index == s.udp_index && t.host == s.host
            &&& t.next_id == s.next_id && t.config == s.config && t.guest_mac == s.guest_mac
        }),
{
    let p = wire::tcp_segment(
        flow.remote.ip,
        flow.remote.port,
        flow.guest.ip,
        flow.guest.port,
        g.seq,
        g.ack,
        g.flags,
        g.window,
        g.mss,
        g.payload,
    );
    wire::law_tcp_round_trip(
        flow.remote.ip,
        flow.remote.port,
        flow.guest.ip,
        flow.guest.port,
        g.seq,
        g.ack,
        g.flags,
        g.window,
        g.mss,
        g.payload,
    );
    assert(p.len() <= 24 + g.payload.len());
    lemma_packet_leaves(s, guest_mac_of(s), flow.remote.ip, flow.guest.ip, 6, p);
}

/// A segment of a connection leaves as a TCP segment of its flow, with all its
/// fields and its data.
pub proof fn law_segment_reaches_the_guest<M>(s: Net<M>, flow: Flow, g: Seg)
    requires
        g.payload.len() <= 60_000,
    ensures
        one_more(s, s.sent_segment(flow, g)),
        is_segment(s, s.sent_segment(flow, g).out.last(), flow, g),
{
    lemma_segment_leaves(s, flow, g);
}

/// A segment that belongs to no connection and opens none is answered with an RST
/// that the guest accepts: with the number that it acknowledged or, if it
/// acknowledges nothing, with an acknowledgement of all it carried. An RST is never
/// answered.
pub proof fn law_stray_segment_is_refused<U: Upstream>(
    s: Net<U::Model>,
    now: VirtualTime,
    flow: Flow,
    h: TcpHeader,
    payload: Seq<u8>,
)
    requires
        conn_of_flow(s.tcp_index, flow) is None,
        payload.len() <= 65_535,
        !(h.flag(TCP_SYN) && !h.flag(TCP_ACK)) || h.flag(TCP_RST),
    ensures
        ({
            let t = s.tcp_dispatched::<U>(now, flow, h, payload);
            let took = payload.len() + (if h.flag(TCP_SYN) { 1int } else { 0 }) + (if h.flag(
                TCP_FIN,
            ) {
                1int
            } else {
                0
            });
            &&& h.flag(TCP_RST) ==> t == s
            &&& !h.flag(TCP_RST) ==> {
                &&& one_more(s, t)
                &&& is_segment(
                    s,
                    t.out.last(),
                    flow,
                    Seg {
                        seq: if h.flag(TCP_ACK) { h.ack } else { 0 },
                        ack: if h.flag(TCP_ACK) { 0 } else { wadd(h.seq, took as u32) },
                        flags: if h.flag(TCP_ACK) { TCP_RST } else { TCP_RST | TCP_ACK },
                        window: 0,
                        mss: None,
                        payload: Seq::empty(),
                    },
                )
                &&& t.tcp == s.tcp && t.up == s.up && t.log == s.log
                &&& t.stats.tcp_rst_unknown == (s.stats.tcp_rst_unknown + 1)
                    % 0x1_0000_0000_0000_0000
            }
        }),
{
    reveal(Net::tcp_dispatched);
    if !h.flag(TCP_RST) {
        let a = Net {
            stats: Stats {
                tcp_rst_unknown: crate::net::gateway::bump(s.stats.tcp_rst_unknown),
                ..s.stats
            },
            ..s
        };
        lemma_segment_leaves(a, flow, crate::net::gateway::stray_reset(h, payload.len()));
    }
}

/// A SYN on a flow without a connection opens one: the upstream is asked to, under
/// a new number, and it is logged. While the upstream has not decided nothing is
/// sent, and the connection waits, is found by its flow, and expects the byte after
/// the SYN. If it refuses, an RST that acknowledges the SYN leaves, the upstream is
/// told of the end, and there is no connection.
pub proof fn law_syn_opens_a_connection<U: Upstream>(
    s: Net<U::Model>,
    now: VirtualTime,
    flow: Flow,
    h: TcpHeader,
    payload: Seq<u8>,
)
    requires
        ordered(s.tcp),
        flows_ordered(s.tcp_index),
        conn_of_flow(s.tcp_index, flow) is None,
        h.flag(TCP_SYN) && !h.flag(TCP_ACK) && !h.flag(TCP_RST),
        s.next_id < u64::MAX,
        s.config.tcp_connect_timeout_us > 0,
        now.0 < u64::MAX,
    ensures
        ({
            let t = s.tcp_dispatched::<U>(now, flow, h, payload);
            let id = s.next_id;
            let asked = U::opened(s.up, now, id, flow);
            let opened = s.log.push(Event { at: now, kind: Fact::TcpOpen { id, flow } });
            &&& t.next_id == id + 1
            &&& U::status(asked, now, id) == TcpStatus::Pending ==> {
                let c = value(t.tcp, id);
                &&& t.up == U::status_next(asked, now, id)
                &&& t.log == opened && t.out == s.out
                &&& keyed(t.tcp, id) && conn_of_flow(t.tcp_index, flow) == Some(id)
                &&& c.t.state == State::Connecting && c.t.flow == flow && c.t.id == id
                &&& c.t.irs == h.seq && c.t.rcv_nxt == wadd(h.seq, 1)
                &&& c.t.snd_wnd == h.window
                &&& c.t.connect_deadline == now.later(s.config.tcp_connect_timeout_us)
                &&& c.rx.len() == 0 && c.tx.len() == 0
            }
            &&& U::status(asked, now, id) == TcpStatus::Refused ==> {
                &&& t.up == U::closed(U::status_next(asked, now, id), now, id, true)
                &&& t.tcp == s.tcp && t.tcp_index == s.tcp_index
                &&& t.log.len() == s.log.len() + 2
                &&& t.log.last().kind == (Fact::TcpClosed {
                    id,
                    reason: CloseReason::Refused,
                    bytes_to_remote: 0,
                    bytes_to_guest: 0,
                })
                &&& one_more(s, t)
                &&& is_segment(
                    s,
                    t.out.last(),
                    flow,
                    Seg {
                        seq: 0,
                        ack: wadd(h.seq, 1),
                        flags: TCP_RST | TCP_ACK,
                        window: 65_535,
                        mss: None,
                        payload: Seq::empty(),
                    },
                )
            }
        }),
{
    reveal(Net::tcp_dispatched);
    reveal(Net::tcp_opened);
    let id = s.next_id;
    let a = (Net {
        next_id: (s.next_id + 1) as u64,
        up: U::opened(s.up, now, id, flow),
        ..s
    }).logged(now, Fact::TcpOpen { id, flow });
    let c0 = Conn::from_syn(
        id,
        flow,
        h,
        s.config.iss(id),
        s.config.local_mss(),
        now,
        s.config.tcp_connect_timeout_us,
    );
    let w0 = World { up: a.up, log: a.log, out: Seq::empty() };
    let (c, w) = c0.process::<U>(w0, now);
    law_table_put(s.tcp, id, c, id);
    law_filed_flow_is_found(s.tcp_index, flow, id);
    let b = Net { up: w.up, log: w.log, ..a };
    if U::status(a.up, now, id) == TcpStatus::Pending {
        lemma_waits::<U>(c0, w0, now);
        assert(b.sent_segments(flow, w.out) == b);
    } else if U::status(a.up, now, id) == TcpStatus::Refused {
        let g = Seg {
            seq: 0,
            ack: wadd(h.seq, 1),
            flags: TCP_RST | TCP_ACK,
            window: 65_535,
            mss: None,
            payload: Seq::empty(),
        };
        lemma_is_refused::<U>(c0, w0, now);
        assert(w.out =~= seq![g]);
        reveal_with_fuel(Net::sent_segments, 2);
        assert(seq![g].drop_last() =~= Seq::empty());
        assert(b.sent_segments(flow, w.out) == b.sent_segment(flow, g));
        lemma_segment_leaves(b, flow, g);
    } else {
        lemma_sending_keeps_numbers(b, flow, w.out);
    }
}

proof fn lemma_sending_keeps_numbers<M>(s: Net<M>, flow: Flow, out: Seq<Seg>)
    ensures
        s.sent_segments(flow, out).next_id == s.next_id,
    decreases out.len(),
{
    if out.len() > 0 {
        lemma_sending_keeps_numbers(s, flow, out.drop_last());
    }
}

proof fn lemma_waits<U: Upstream>(c: Conn, w: World<U::Model>, now: VirtualTime)
    requires
        c.t.state == State::Connecting,
        now.0 < c.t.connect_deadline.0,
        U::status(w.up, now, c.t.id) == TcpStatus::Pending,
    ensures
        c.process::<U>(w, now) == (c, World { up: U::status_next(w.up, now, c.t.id), ..w }),
{
}

proof fn lemma_is_refused<U: Upstream>(c: Conn, w: World<U::Model>, now: VirtualTime)
    requires
        c.t.state == State::Connecting,
        c.rx.len() == 0,
        U::status(w.up, now, c.t.id) == TcpStatus::Refused,
    ensures
        ({
            let (d, v) = c.process::<U>(w, now);
            &&& d.t.state == State::Closed
            &&& v.up == U::closed(U::status_next(w.up, now, c.t.id), now, c.t.id, true)
            &&& v.log == w.log.push(
                Event {
                    at: now,
                    kind: Fact::TcpClosed {
                        id: c.t.id,
                        reason: CloseReason::Refused,
                        bytes_to_remote: c.t.bytes_to_remote,
                        bytes_to_guest: c.t.bytes_to_guest,
                    },
                },
            )
            &&& v.out == w.out.push(
                Seg {
                    seq: 0,
                    ack: c.t.rcv_nxt,
                    flags: TCP_RST | TCP_ACK,
                    window: 65_535,
                    mss: None,
                    payload: Seq::empty(),
                },
            )
        }),
{
    assert((0x04u8 | 0x10u8) & 0x02u8 == 0) by (bit_vector);
}

/// A DHCP message that is to be answered is answered with one frame: a datagram
/// from the gateway's port 67 to port 68 at the place that the answer names, with
/// the answer in it. The guest's MAC is learnt from it, and it is logged.
pub proof fn law_dhcp_answer_leaves<M>(
    s: Net<M>,
    now: VirtualTime,
    data: Seq<u8>,
    m: dhcp::Message,
    a: dhcp::Answer,
)
    requires
        dhcp::message_in(data) == Some(m),
        m.answer(s.config.lease()) == Some(a),
        a.packet.len() <= 60_000,
    ensures
        ({
            let t = s.dhcp_handled(now, data);
            let p = wire::ipv4_payload(t.out.last().skip(14));
            &&& one_more(s, t)
            &&& is_packet(s, t.out.last(), a.dst_mac, s.config.gateway_ip, a.dst_ip, 17, p)
            &&& wire::is_udp(p) && wire::udp_payload(p) == a.packet
            &&& wire::udp_at(s.config.gateway_ip, a.dst_ip, p).src_port == 67
            &&& wire::udp_at(s.config.gateway_ip, a.dst_ip, p).dst_port == 68
            &&& m.chaddr.b0 % 2 == 0 && m.chaddr != Mac::all(0) ==> t.guest_mac == Some(m.chaddr)
            &&& t.log.len() == s.log.len() + 1
            &&& t.up == s.up && t.tcp == s.tcp && t.udp == s.udp
        }),
{
    reveal(Net::dhcp_handled);
    let b = m.chaddr.b0;
    assert((b & 1 == 0) == (b % 2 == 0)) by (bit_vector);
    let p = wire::udp_datagram(s.config.gateway_ip, 67, a.dst_ip, 68, a.packet);
    wire::law_udp_round_trip(s.config.gateway_ip, 67, a.dst_ip, 68, a.packet);
    assert(p.len() == 8 + a.packet.len());
    let t = s.dhcp_handled(now, data);
    let n = Net { guest_mac: t.guest_mac, log: t.log, ..s };
    lemma_packet_leaves(n, a.dst_mac, s.config.gateway_ip, a.dst_ip, 17, p);
    assert(t == n.sent_ipv4_to(a.dst_mac, s.config.gateway_ip, a.dst_ip, 17, p));
}

} // verus!
