//! What holds of the gateway as a whole.
use vstd::prelude::*;
use crate::net::addr::{ConnId, Mac, VirtualTime};
use crate::net::events::Fact;
use crate::net::gateway::{bump, Net, Stats};
use crate::net::hostfwd::{Ends, HostSide, HOST_BUFFER};
use crate::net::upstream::Upstream;
use crate::net::wire;
use crate::net::wire::{Arp, Ipv4Header};
use crate::table::{keyed, rank, value};

verus! {

/// An action on the stack.
pub enum Action {
    Receive { now: VirtualTime, frame: Seq<u8> },
    Poll { now: VirtualTime },
    /// The next frame for the guest is taken.
    Pop,
}

impl<M> Net<M> {
    /// The stack without the next frame for the guest.
    pub open spec fn popped(self) -> Self {
        if self.out.len() > 0 { Net { out: self.out.skip(1), ..self } } else { self }
    }
}

/// The state after some actions, in order.
pub open spec fn played<U: Upstream>(s: Net<U::Model>, actions: Seq<Action>) -> Net<U::Model>
    decreases actions.len(),
{
    if actions.len() == 0 {
        s
    } else {
        let a = played::<U>(s, actions.drop_last());
        match actions.last() {
            Action::Receive { now, frame } => a.received::<U>(now, frame),
            Action::Poll { now } => a.polled::<U>(now),
            Action::Pop => a.popped(),
        }
    }
}

/// The same calls with the same arguments produce the same frames and the same
/// event log: the outcome is a function of the starting state and the actions,
/// and playing some actions and after them some more is playing them all.
pub proof fn law_actions_determine_the_outcome<U: Upstream>(
    s: Net<U::Model>,
    first: Seq<Action>,
    more: Seq<Action>,
)
    ensures
        played::<U>(played::<U>(s, first), more) == played::<U>(s, first + more),
    decreases more.len(),
{
    if more.len() == 0 {
        assert(first + more =~= first);
    } else {
        assert((first + more).drop_last() =~= first + more.drop_last());
        assert((first + more).last() == more.last());
        law_actions_determine_the_outcome::<U>(s, first, more.drop_last());
    }
}

/// The frames that some actions take from the stack, in order.
pub open spec fn frames_taken<U: Upstream>(s: Net<U::Model>, actions: Seq<Action>) -> Seq<
    Option<Seq<u8>>,
>
    decreases actions.len(),
{
    if actions.len() == 0 {
        Seq::empty()
    } else {
        let before = frames_taken::<U>(s, actions.drop_last());
        let a = played::<U>(s, actions.drop_last());
        if actions.last() is Pop {
            before.push(if a.out.len() > 0 { Some(a.out[0]) } else { None })
        } else {
            before
        }
    }
}

/// Nothing depends on the clock of the host or on chance: of two stacks that start
/// equal, with upstreams that start equal and answer equal calls equally, the same
/// calls take the same frames in the same order, and leave the same events, the
/// same counters and the same deadline.
pub proof fn law_equal_stacks_stay_equal<U: Upstream>(
    a: Net<U::Model>,
    b: Net<U::Model>,
    actions: Seq<Action>,
    first: Option<VirtualTime>,
    second: Option<VirtualTime>,
)
    requires
        a == b,
        played::<U>(a, actions).is_next_deadline(first),
        played::<U>(b, actions).is_next_deadline(second),
    ensures
        frames_taken::<U>(a, actions) == frames_taken::<U>(b, actions),
        played::<U>(a, actions) == played::<U>(b, actions),
        played::<U>(a, actions).out == played::<U>(b, actions).out,
        played::<U>(a, actions).log == played::<U>(b, actions).log,
        played::<U>(a, actions).stats == played::<U>(b, actions).stats,
        first == second,
{
    let n = played::<U>(a, actions);
    if first is Some && second is Some {
        assert(n.is_deadline(first->0) && n.is_deadline(second->0));
    } else if first is Some {
        assert(n.is_deadline(first->0));
    } else if second is Some {
        assert(n.is_deadline(second->0));
    }
}

/// The gateway answers ARP for its own addresses, with its own MAC, to who
/// asked; the answer can be read back.
pub proof fn law_arp_is_answered<M>(s: Net<M>, p: Seq<u8>, arp: Arp)
    requires
        wire::arp_at(p) == Some(arp),
        arp.op == wire::ARP_REQUEST,
        s.config.is_gateway(arp.target_ip),
    ensures
        ({
            let r = s.arp_handled(p);
            let f = r.out.last();
            &&& r.out.len() == s.out.len() + 1
            &&& wire::eth_at(f).dst == arp.sender_mac
            &&& wire::eth_at(f).src == s.config.gateway_mac
            &&& wire::eth_at(f).ethertype == wire::ETHERTYPE_ARP
            &&& wire::arp_at(f.skip(14)) == Some(
                Arp {
                    op: wire::ARP_REPLY,
                    sender_mac: s.config.gateway_mac,
                    sender_ip: arp.target_ip,
                    target_mac: arp.sender_mac,
                    target_ip: arp.sender_ip,
                },
            )
        }),
{
    reveal(Net::arp_handled);
    let a = Arp {
        op: wire::ARP_REPLY,
        sender_mac: s.config.gateway_mac,
        sender_ip: arp.target_ip,
        target_mac: arp.sender_mac,
        target_ip: arp.sender_ip,
    };
    wire::law_arp_round_trip(a);
    wire::law_eth_round_trip(
        arp.sender_mac,
        s.config.gateway_mac,
        wire::ETHERTYPE_ARP,
        wire::arp_packet(a),
    );
}

/// For any other address nobody answers, that of the guest among them: its
/// conflict detection succeeds.
pub proof fn law_arp_is_silent_for_others<M>(s: Net<M>, p: Seq<u8>, arp: Arp)
    requires
        wire::arp_at(p) == Some(arp),
        !s.config.is_gateway(arp.target_ip),
    ensures
        s.arp_handled(p).out == s.out,
        s.arp_handled(p).log == s.log,
        s.arp_handled(p).stats.ignored == bump(s.stats.ignored),
{
    reveal(Net::arp_handled);
}

/// An echo to the gateway's own addresses is answered whatever the upstream is,
/// with the same identifier, sequence number and data and a good checksum, and
/// the upstream is not asked.
pub proof fn law_gateway_answers_echo<U: Upstream>(
    s: Net<U::Model>,
    now: VirtualTime,
    ip: Ipv4Header,
    msg: Seq<u8>,
)
    requires
        s.config.is_gateway(ip.dst),
        msg.len() >= 8,
        msg[0] == wire::ICMP_ECHO_REQUEST,
        msg[1] == 0,
        wire::spec_checksum(msg) == 0,
    ensures
        ({
            let r = s.icmp_handled::<U>(now, ip, msg);
            let reply = wire::icmp_message(
                wire::ICMP_ECHO_REPLY,
                0,
                msg.subrange(4, 8),
                msg.skip(8),
            );
            &&& r.up == s.up
            &&& r.log.last().kind == (Fact::IcmpEcho { dst: ip.dst, answered: true })
            &&& r.out == s.sent_ipv4(ip.dst, ip.src, wire::PROTO_ICMP, reply).out
            &&& wire::spec_checksum(reply) == 0
        }),
{
    reveal(Net::icmp_handled);
    wire::law_icmp_checksum_verifies(
        wire::ICMP_ECHO_REPLY,
        0,
        msg.subrange(4, 8),
        msg.skip(8),
    );
}

/// A frame for somebody else changes nothing but a counter.
pub proof fn law_frames_for_others_are_dropped<U: Upstream>(
    s: Net<U::Model>,
    now: VirtualTime,
    frame: Seq<u8>,
)
    requires
        frame.len() >= 14,
        wire::eth_at(frame).dst != s.config.gateway_mac,
        wire::eth_at(frame).dst != Mac::all(0xFF),
    ensures
        s.frame_handled::<U>(now, frame) == (Net {
            stats: Stats { not_for_us: bump(s.stats.not_for_us), ..s.stats },
            ..s
        }),
{
    reveal(Net::frame_handled);
}

/// When checksums are verified, a segment with a wrong one changes nothing but a
/// counter.
pub proof fn law_bad_checksums_are_dropped<U: Upstream>(
    s: Net<U::Model>,
    now: VirtualTime,
    ip: Ipv4Header,
    segment: Seq<u8>,
)
    requires
        s.config.verify_checksums,
        wire::is_tcp(segment),
        wire::spec_transport_checksum(ip.src, ip.dst, wire::PROTO_TCP, segment) != 0,
    ensures
        s.tcp_handled::<U>(now, ip, segment) == (Net {
            stats: Stats { bad_checksum: bump(s.stats.bad_checksum), ..s.stats },
            ..s
        }),
{
    reveal(Net::tcp_handled);
}

/// A fragment is never taken for a whole packet: it changes nothing but a
/// counter.
pub proof fn law_fragments_are_dropped<U: Upstream>(
    s: Net<U::Model>,
    now: VirtualTime,
    packet: Seq<u8>,
)
    requires
        wire::is_ipv4(packet),
        wire::ipv4_at(packet).fragment,
        wire::ipv4_at(packet).checksum_ok,
    ensures
        s.ipv4_handled::<U>(now, packet) == (Net {
            stats: Stats { fragments: bump(s.stats.fragments), ..s.stats },
            ..s
        }),
{
    reveal(Net::ipv4_handled);
}

/// Neither queue of a host connection ever holds more than its capacity: the
/// guest's bytes are accepted only while there is room.
pub proof fn law_host_queues_are_bounded(m: Ends, now: VirtualTime, id: ConnId, data: Seq<u8>)
    requires
        keyed(m.conns, id),
        value(m.conns, id).from_guest.len() <= HOST_BUFFER,
    ensures
        ({
            let n = HostSide::write_count(m, now, id, data);
            let after = HostSide::write_next(m, now, id, data).conns[rank(m.conns, id)].1;
            &&& after.from_guest.len() <= HOST_BUFFER
            &&& n <= data.len()
            &&& after.from_guest == value(m.conns, id).from_guest + data.take(n as int)
        }),
{
    crate::table::lemma_rank(m.conns, id);
}

/// What the host queues is what the connection reads, in order: reading after
/// queueing gives the bytes that were there, and then the new ones.
pub proof fn law_host_bytes_keep_their_order(m: Ends, now: VirtualTime, id: ConnId, room: nat)
    requires
        keyed(m.conns, id),
        value(m.conns, id).to_guest.len() > 0,
        room > 0,
    ensures
        ({
            let e = value(m.conns, id);
            let got = HostSide::read_data(m, now, id, room);
            let rest = HostSide::read_next(m, now, id, room).conns[rank(m.conns, id)].1.to_guest;
            &&& got.len() > 0
            &&& got + rest == e.to_guest
        }),
{
    crate::table::lemma_rank(m.conns, id);
    let e = value(m.conns, id);
    let got = HostSide::read_data(m, now, id, room);
    let rest = HostSide::read_next(m, now, id, room).conns[rank(m.conns, id)].1.to_guest;
    assert(got + rest =~= e.to_guest);
}

} // verus!
