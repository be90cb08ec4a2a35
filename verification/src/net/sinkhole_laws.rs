//! What the sinkhole answers, as the name server and as every other server.
use vstd::prelude::*;
use crate::net::addr::{ConnId, Flow, VirtualTime};
use crate::net::dns::{answer_in, direct, law_dns_answer_round_trip, question_in, Answered, Question};
use crate::net::names::{addr_of, names_ordered};
use crate::net::sinkhole::{law_names_have_their_own_addresses, Asked, Hole, Script, Sinkhole, Talk};
use crate::net::upstream::{TcpRead, TcpStatus, Upstream};
use crate::table::{keyed, law_table_put, law_table_without, ordered, value};

verus! {

/// Every question gets exactly one answer, on the flow it came on, that reads back
/// with its number, its name and its type. A question for the IPv4 address of a
/// name is answered with the one address that the name has from then on; one of
/// another type or class, or without a name, with no address and no error; one that
/// is no plain query is answered as not implemented. The question is recorded.
pub proof fn law_questions_are_answered(
    h: Hole,
    now: VirtualTime,
    id: ConnId,
    data: Seq<u8>,
    q: Question,
)
    requires
        question_in(data) == Some(q),
        direct(data, 12),
        h.attributes(),
        names_ordered(h.names),
        h.names.len() < 0xffff_ffff,
    ensures
        ({
            let g = h.dns_answered(now, id, data);
            let plain = q.opcode == 0 && q.qtype == 1 && q.qclass == 1 && q.name.len() > 0;
            let a = addr_of(g.names, q.name);
            let reply = answer_in(g.udp_out.last().1);
            &&& g.udp_out.len() == h.udp_out.len() + 1 && g.udp_out.drop_last() == h.udp_out
            &&& g.udp_out.last().0 == id
            &&& reply == Some(
                Answered {
                    id: q.id,
                    rcode: if q.opcode == 0 { 0 } else { 4 },
                    name: q.name,
                    qtype: q.qtype,
                    addrs: if plain { seq![a->0] } else { Seq::empty() },
                },
            )
            &&& plain ==> a is Some && g.name_of(a->0) == Some(q.name)
            &&& !plain ==> g.names == h.names && g.addrs == h.addrs
            &&& g.dns == h.dns.push(
                Asked {
                    at: now,
                    name: q.name,
                    qtype: q.qtype,
                    answer: if plain { a } else { None },
                },
            )
            &&& g.attributes() && names_ordered(g.names)
        }),
{
    law_names_have_their_own_addresses(h, q.name);
    let plain = q.opcode == 0 && q.qtype == 1 && q.qclass == 1 && q.name.len() > 0;
    let rcode: u8 = if q.opcode != 0 { 4 } else { 0 };
    let g = h.dns_answered(now, id, data);
    let addrs = if plain { seq![h.resolved(q.name).1] } else { Seq::empty() };
    law_dns_answer_round_trip(data, q, rcode, addrs, h.config.dns_ttl);
    assert(g.udp_out.drop_last() =~= h.udp_out);
}

/// What is no question gets no answer.
pub proof fn law_no_question_no_answer(h: Hole, now: VirtualTime, id: ConnId, data: Seq<u8>)
    requires
        question_in(data) is None,
    ensures
        h.dns_answered(now, id, data) == h,
{
}

/// A conversation starts with the greeting of its port. It is over from the start
/// only if the server closes after its answers and has no answer to data to wait for.
pub proof fn law_conversation_starts_with_the_greeting(reply: Script)
    ensures
        ({
            let t = Talk::started(reply);
            &&& t.out == reply.on_connect
            &&& !t.replied_to_data
            &&& t.eof == (reply.close_after_reply && reply.on_data.len() == 0)
            &&& t.reply == reply
        }),
{
}

/// The first data of the guest is answered, once, after what is still to be said;
/// with the answer given the server closes, if it is one that does. Later data, and
/// data on a closed conversation, is not answered.
pub proof fn law_first_data_is_answered_once(t: Talk, data: Seq<u8>, more: Seq<u8>)
    requires
        data.len() > 0,
        !t.replied_to_data && !t.eof,
    ensures
        ({
            let u = t.heard(data);
            &&& u.out == t.out + t.reply.on_data
            &&& u.replied_to_data
            &&& u.eof == t.reply.close_after_reply
            &&& u.reply == t.reply
            &&& u.heard(more) == u
            &&& t.heard(Seq::empty()) == t
        }),
{
}

/// A connection to a port that is not refused is open at once, attributed to the
/// name that its address was given to, with nothing received or said yet; its
/// conversation is that of its port. A refused one is recorded as such.
pub proof fn law_connections_are_recorded(m: Hole, now: VirtualTime, id: ConnId, flow: Flow)
    requires
        ordered(m.tcp),
        ordered(m.tcp_runtime),
    ensures
        ({
            let h = Sinkhole::opened(m, now, id, flow);
            let r = value(h.tcp, id);
            let refused = m.config.refused_ports@.contains(flow.remote.port);
            &&& keyed(h.tcp, id)
            &&& r.id == id && r.flow == flow && r.opened_at == now && r.closed_at is None
            &&& r.hostname == m.name_of(flow.remote.ip)
            &&& r.refused == refused && !r.reset && !r.guest_shutdown
            &&& r.from_guest.len() == 0 && r.to_guest == 0
            &&& Sinkhole::status(h, now, id) == if refused {
                TcpStatus::Refused
            } else {
                TcpStatus::Connected
            }
            &&& !refused ==> keyed(h.tcp_runtime, id) && value(h.tcp_runtime, id).out == (
            if m.config.tcp_by_port@.contains_key(flow.remote.port) {
                m.config.tcp_by_port@[flow.remote.port]@
            } else {
                m.config.tcp_default@
            }).on_connect
        }),
{
    let r = m.first_seen(now, id, flow);
    law_table_put(m.tcp, id, r, id);
    law_table_put(m.tcp_runtime, id, Talk::started(m.config.script(flow.remote.port)), id);
}

/// A read gives what is still to be said, from the front, as much as there is room
/// for, and counts it; with nothing left it says whether more can come or not.
pub proof fn law_reads_give_what_is_to_be_said(
    m: Hole,
    now: VirtualTime,
    id: ConnId,
    room: usize,
)
    requires
        ordered(m.tcp) && ordered(m.tcp_runtime),
        keyed(m.tcp, id) && keyed(m.tcp_runtime, id),
        room > 0,
    ensures
        ({
            let t = value(m.tcp_runtime, id);
            let h = Sinkhole::read_next(m, now, id, room as nat);
            let data = Sinkhole::read_data(m, now, id, room as nat);
            let result = Sinkhole::read_result(m, now, id, room as nat);
            &&& t.out.len() == 0 ==> h == m && result == if t.eof {
                TcpRead::Eof
            } else {
                TcpRead::WouldBlock
            }
            &&& t.out.len() > 0 ==> {
                &&& result == TcpRead::Data(data.len() as usize)
                &&& data.len() == t.out.len() || data.len() == room
                &&& 0 < data.len() <= room
                &&& data + value(h.tcp_runtime, id).out == t.out
                &&& value(h.tcp, id).to_guest == (value(m.tcp, id).to_guest + data.len())
                    % 0x1_0000_0000_0000_0000
            }
        }),
{
    let t = value(m.tcp_runtime, id);
    if t.out.len() > 0 {
        let n = if t.out.len() <= room { t.out.len() as int } else { room as int };
        let r = value(m.tcp, id);
        law_table_put(m.tcp_runtime, id, Talk { out: t.out.skip(n), ..t }, id);
        law_table_put(
            m.tcp,
            id,
            crate::net::sinkhole::Seen {
                to_guest: crate::net::tcp::count64(r.to_guest, n as nat),
                ..r
            },
            id,
        );
        assert(t.out.take(n) + t.out.skip(n) =~= t.out);
    }
}

/// When the guest closes its side the server does so too, after what is still to be
/// said. When the connection ends, its time and whether it was broken are recorded,
/// and its conversation is over; what was recorded before stays.
pub proof fn law_ends_are_recorded(m: Hole, now: VirtualTime, id: ConnId, reset: bool)
    requires
        ordered(m.tcp) && ordered(m.tcp_runtime),
        keyed(m.tcp, id) && keyed(m.tcp_runtime, id),
    ensures
        ({
            let h = Sinkhole::shut(m, now, id);
            let g = Sinkhole::closed(m, now, id, reset);
            let was = value(m.tcp, id);
            &&& value(h.tcp_runtime, id).eof && value(h.tcp_runtime, id).out == value(
                m.tcp_runtime,
                id,
            ).out
            &&& value(h.tcp, id).guest_shutdown && value(h.tcp, id).from_guest == was.from_guest
            &&& value(g.tcp, id).closed_at == Some(now)
            &&& value(g.tcp, id).reset == (reset && !was.refused)
            &&& value(g.tcp, id).from_guest == was.from_guest && value(g.tcp, id).to_guest
                == was.to_guest && value(g.tcp, id).flow == was.flow
            &&& !keyed(g.tcp_runtime, id)
        }),
{
    let r = value(m.tcp, id);
    let t = value(m.tcp_runtime, id);
    law_table_put(m.tcp, id, crate::net::sinkhole::Seen { guest_shutdown: true, ..r }, id);
    law_table_put(m.tcp_runtime, id, Talk { eof: true, ..t }, id);
    law_table_put(
        m.tcp,
        id,
        crate::net::sinkhole::Seen { closed_at: Some(now), reset: reset && !r.refused, ..r },
        id,
    );
    law_table_without(m.tcp_runtime, id, id);
}

} // verus!
