//! What holds of the upstream behind a relay.
use vstd::prelude::*;
use crate::bytes::min_len;
use crate::net::addr::{ConnId, Flow, VirtualTime};
use crate::net::relay::{pumped, Echo, Link, Links, MemoryRelay, Note, Relay, RelayUpstream};
use crate::net::upstream::{TcpRead, TcpStatus, Upstream};
use crate::table::{keyed, law_table_put, lemma_rank, lemma_rank_at, ordered, rank, value};

verus! {

/// Everything that the stack asks for goes to the relay as a message, once, after
/// those before it; an empty write sends none.
pub proof fn law_calls_become_messages(
    m: Links<Echo>,
    now: VirtualTime,
    id: ConnId,
    flow: Flow,
    data: Seq<u8>,
    reset: bool,
)
    ensures
        RelayUpstream::<MemoryRelay>::opened(m, now, id, flow).relay.sent == m.relay.sent.push(
            Note::TcpConnect { id, dst: flow.remote },
        ),
        RelayUpstream::<MemoryRelay>::write_next(m, now, id, data).relay.sent == if data.len() > 0 {
            m.relay.sent.push(Note::TcpData { id, data })
        } else {
            m.relay.sent
        },
        RelayUpstream::<MemoryRelay>::write_count(m, now, id, data) == data.len() as usize,
        RelayUpstream::<MemoryRelay>::shut(m, now, id).relay.sent == m.relay.sent.push(
            Note::TcpShutdown { id },
        ),
        keyed(m.conns, id) ==> RelayUpstream::<MemoryRelay>::closed(m, now, id, reset).relay.sent
            == m.relay.sent.push(Note::TcpClose { id, reset }),
        RelayUpstream::<MemoryRelay>::udp_sent(m, now, id, flow, data).relay.sent
            == m.relay.sent.push(Note::UdpSend { id, dst: flow.remote, data }),
        RelayUpstream::<MemoryRelay>::udp_closed(m, now, id).relay.sent == m.relay.sent.push(
            Note::UdpClose { id },
        ),
{
}

/// A message on a connection that is not there changes nothing, nor does one that
/// only goes to the relay.
pub proof fn law_stray_messages_are_ignored<M>(m: Links<M>, n: Note)
    requires
        match n {
            Note::TcpConnected { id } => !keyed(m.conns, id),
            Note::TcpRefused { id } => !keyed(m.conns, id),
            Note::TcpData { id, .. } => !keyed(m.conns, id),
            Note::TcpShutdown { id } => !keyed(m.conns, id),
            Note::TcpClose { id, .. } => !keyed(m.conns, id),
            Note::UdpRecv { .. } => false,
            _ => true,
        },
    ensures
        m.noted(n) == m,
{
}

/// The connection `id` after its link was replaced.
proof fn lemma_set<M>(m: Links<M>, id: ConnId, c: Link)
    requires
        keyed(m.conns, id),
    ensures
        keyed(m.set(id, c).conns, id),
        value(m.set(id, c).conns, id) == c,
{
    lemma_rank(m.conns, id);
    let r = rank(m.conns, id);
    let t = m.set(id, c).conns;
    assert forall|k: int| 0 <= k < r implies (#[trigger] t[k]).0 < id by {
        assert(t[k] == m.conns[k]);
    }
    lemma_rank_at(t, id, r);
}

/// Bytes of the relay come out in the order in which they came in: what a read
/// gives and what it leaves, one after the other, are what was there.
pub proof fn law_relay_bytes_keep_their_order<M>(m: Links<M>, id: ConnId, data: Seq<u8>, room: nat)
    requires
        keyed(m.conns, id),
    ensures
        keyed(m.noted(Note::TcpData { id, data }).conns, id),
        ({
            let c = value(m.noted(Note::TcpData { id, data }).conns, id);
            let n = min_len(c.inbox.len(), room) as int;
            c.inbox == value(m.conns, id).inbox + data && c.inbox.take(n) + c.inbox.skip(n)
                == c.inbox
        }),
{
    let c = value(m.conns, id);
    lemma_set(m, id, Link { inbox: c.inbox + data, ..c });
    let all = c.inbox + data;
    let n = min_len(all.len(), room) as int;
    assert(all.take(n) + all.skip(n) =~= all);
}

/// Once it was asked, no message of the relay waits to be read.
pub proof fn law_every_message_is_read(m: Links<Echo>)
    ensures
        pumped::<MemoryRelay>(m).relay.inbox.len() == 0,
        pumped::<MemoryRelay>(m).relay.sent == m.relay.sent,
    decreases m.relay.inbox.len(),
{
    if m.relay.inbox.len() > 0 {
        law_every_message_is_read(
            (Links { relay: MemoryRelay::next(m.relay), ..m }).noted(m.relay.inbox[0]),
        );
    }
}

/// The relay in memory refuses its refused ports and opens all others.
pub proof fn law_relay_answers_the_opening(
    m: Links<Echo>,
    now: VirtualTime,
    id: ConnId,
    flow: Flow,
)
    requires
        ordered(m.conns),
        m.relay.inbox.len() == 0,
    ensures
        RelayUpstream::<MemoryRelay>::status(
            RelayUpstream::<MemoryRelay>::opened(m, now, id, flow),
            now,
            id,
        ) == if m.relay.refused_ports.contains(flow.remote.port) {
            TcpStatus::Refused
        } else {
            TcpStatus::Connected
        },
{
    let fresh = Link { status: None, inbox: Seq::empty(), eof: false, reset: false };
    law_table_put(m.conns, id, fresh, 0);
    let o = RelayUpstream::<MemoryRelay>::opened(m, now, id, flow);
    assert(o.relay.inbox =~= m.relay.reaction(Note::TcpConnect { id, dst: flow.remote }));
    let a = Links { relay: MemoryRelay::next(o.relay), ..o };
    assert(a.relay.inbox.len() == 0);
    lemma_set(a, id, Link { status: Some(TcpStatus::Refused), ..fresh });
    lemma_set(a, id, Link { status: Some(TcpStatus::Connected), ..fresh });
    reveal_with_fuel(pumped, 2);
}

/// The relay in memory sends back what was written: it is read after what was
/// there before.
pub proof fn law_relay_echoes(
    m: Links<Echo>,
    now: VirtualTime,
    id: ConnId,
    data: Seq<u8>,
    room: nat,
)
    requires
        keyed(m.conns, id),
        !value(m.conns, id).reset,
        m.relay.inbox.len() == 0,
        data.len() > 0,
        room > 0,
    ensures
        ({
            let w = RelayUpstream::<MemoryRelay>::write_next(m, now, id, data);
            let all = value(m.conns, id).inbox + data;
            let n = min_len(all.len(), room);
            &&& RelayUpstream::<MemoryRelay>::read_result(w, now, id, room) == TcpRead::Data(
                n as usize,
            )
            &&& RelayUpstream::<MemoryRelay>::read_data(w, now, id, room) == all.take(n as int)
        }),
{
    let w = RelayUpstream::<MemoryRelay>::write_next(m, now, id, data);
    assert(w.relay.inbox =~= seq![Note::TcpData { id, data }]);
    let a = Links { relay: MemoryRelay::next(w.relay), ..w };
    assert(a.relay.inbox.len() == 0);
    let c = value(m.conns, id);
    lemma_set(a, id, Link { inbox: c.inbox + data, ..c });
    reveal_with_fuel(pumped, 2);
}

} // verus!
