//! The tables of the stack stand in order, whatever happens: every entry once, by
//! ascending number, and every connection under its own number.
use vstd::prelude::*;
use crate::bytes::min_len;
use crate::net::addr::{ConnId, Flow, Mac, SocketAddrV4, VirtualTime};
use crate::net::dns::question_in;
use crate::net::events::{CloseReason, Direction, Event, Fact};
use crate::net::flows::{conn_of_flow, filed, flows_ordered, law_filed_flow_is_found, law_unfiled_flow_is_gone, unfiled};
use crate::net::gateway::{bump, first_port, opens, udp_drained, Net, Stats, Step, UdpFlow};
use crate::net::hostfwd::{End, Ends, HostSide};
use crate::net::names::{lemma_assigned_ordered, names_ordered};
use crate::net::sinkhole::{Hole, Seen, Sinkhole, Talk, UdpSeen};
use crate::net::stack::lemma_sent_segments_keeps;
use crate::net::stack_laws::{played, Action};
use crate::net::tcp::{count64, wadd, wsub, Conn, State, Tcb, Verdict, World, TX_CAPACITY};
use crate::net::upstream::{TcpRead, Upstream};
use crate::net::wire;
use crate::net::wire::{Ipv4Header, TcpHeader, TCP_ACK, TCP_RST, TCP_SYN};
use crate::table::{keyed, law_table_put, law_table_without, lemma_rank, ordered, put, rank, value};

verus! {

// ---- Tables ---------------------------------------------------------------------

proof fn lemma_update_ordered<M>(s: Seq<(u64, M)>, i: int, m: M)
    requires
        ordered(s),
        0 <= i < s.len(),
    ensures
        ordered(s.update(i, (s[i].0, m))),
{
    let t = s.update(i, (s[i].0, m));
    assert forall|a: int, b: int| 0 <= a < b < t.len() implies (#[trigger] t[a]).0 < (#[trigger] t[b]).0 by {
        assert(t[a].0 == s[a].0 && t[b].0 == s[b].0);
    }
}

proof fn lemma_remove_ordered<M>(s: Seq<(u64, M)>, i: int)
    requires
        ordered(s),
        0 <= i < s.len(),
    ensures
        ordered(s.remove(i)),
{
    let t = s.remove(i);
    assert forall|a: int, b: int| 0 <= a < b < t.len() implies (#[trigger] t[a]).0 < (#[trigger] t[b]).0 by {
        let a2 = if a < i { a } else { a + 1 };
        let b2 = if b < i { b } else { b + 1 };
        assert(t[a] == s[a2] && t[b] == s[b2]);
    }
}

proof fn lemma_keyed_update<M>(s: Seq<(u64, M)>, id: u64, m: M)
    requires
        ordered(s),
        keyed(s, id),
    ensures
        ordered(s.update(rank(s, id), (id, m))),
{
    lemma_rank(s, id);
    lemma_update_ordered(s, rank(s, id), m);
}

// ---- The sinkhole ---------------------------------------------------------------

/// The tables of the sinkhole stand in order, and its addresses are of 32 bits.
pub open spec fn hole_tables(m: Hole) -> bool {
    &&& ordered(m.tcp)
    &&& ordered(m.tcp_runtime)
    &&& ordered(m.udp)
    &&& names_ordered(m.names)
    &&& ordered(m.addrs)
    &&& forall|i: int| 0 <= i < m.addrs.len() ==> (#[trigger] m.addrs[i]).0 <= u32::MAX
}

proof fn lemma_put_addr(s: Seq<(u64, Seq<char>)>, k: u64, name: Seq<char>)
    requires
        ordered(s),
        k <= u32::MAX,
        forall|i: int| 0 <= i < s.len() ==> (#[trigger] s[i]).0 <= u32::MAX,
    ensures
        ordered(put(s, k, name)),
        forall|i: int| 0 <= i < put(s, k, name).len() ==> (#[trigger] put(s, k, name)[i]).0 <= u32::MAX,
{
    law_table_put(s, k, name, k);
    lemma_rank(s, k);
    let p = put(s, k, name);
    let r = rank(s, k);
    assert forall|i: int| 0 <= i < p.len() implies (#[trigger] p[i]).0 <= u32::MAX by {
        if i < r {
            assert(p[i] == s[i]);
        } else if i > r {
            if keyed(s, k) {
                assert(p[i] == s[i]);
            } else {
                assert(p[i] == s[i - 1]);
            }
        }
    }
}

/// What the stack asks of the sinkhole keeps its tables in order.
pub proof fn law_sinkhole_stays_in_order(
    m: Hole,
    now: VirtualTime,
    id: ConnId,
    flow: Flow,
    data: Seq<u8>,
    room: nat,
    reset: bool,
)
    requires
        hole_tables(m),
    ensures
        hole_tables(Sinkhole::opened(m, now, id, flow)),
        hole_tables(Sinkhole::write_next(m, now, id, data)),
        hole_tables(Sinkhole::read_next(m, now, id, room)),
        hole_tables(Sinkhole::shut(m, now, id)),
        hole_tables(Sinkhole::closed(m, now, id, reset)),
        hole_tables(Sinkhole::udp_sent(m, now, id, flow, data)),
        hole_tables(Sinkhole::udp_next(m, now)),
        hole_tables(Sinkhole::udp_closed(m, now, id)),
{
    law_table_put(m.tcp, id, m.first_seen(now, id, flow), 0);
    law_table_put(m.tcp_runtime, id, Talk::started(m.config.script(flow.remote.port)), 0);
    if keyed(m.tcp, id) {
        let r = value(m.tcp, id);
        lemma_keyed_update(m.tcp, id, Seen { from_guest: r.from_guest + data, ..r });
        lemma_keyed_update(m.tcp, id, Seen { guest_shutdown: true, ..r });
        lemma_keyed_update(
            m.tcp,
            id,
            Seen { closed_at: Some(now), reset: reset && !r.refused, ..r },
        );
        let n = min_len(value(m.tcp_runtime, id).out.len(), room);
        lemma_keyed_update(m.tcp, id, Seen { to_guest: count64(r.to_guest, n), ..r });
    }
    if keyed(m.tcp_runtime, id) {
        let t = value(m.tcp_runtime, id);
        lemma_keyed_update(m.tcp_runtime, id, t.heard(data));
        lemma_keyed_update(m.tcp_runtime, id, Talk { eof: true, ..t });
        let n = min_len(t.out.len(), room);
        lemma_keyed_update(m.tcp_runtime, id, Talk { out: t.out.skip(n as int), ..t });
    }
    law_table_without(m.tcp_runtime, id, 0);
    if keyed(m.udp, id) {
        lemma_keyed_update(m.udp, id, UdpSeen { closed_at: Some(now), ..value(m.udp, id) });
    }
    let rec = if keyed(m.udp, id) {
        value(m.udp, id)
    } else {
        UdpSeen {
            id,
            flow,
            hostname: m.name_of(flow.remote.ip),
            datagrams: Seq::empty(),
            closed_at: None,
        }
    };
    let u = UdpSeen { datagrams: rec.datagrams.push((now, data)), ..rec };
    law_table_put(m.udp, id, u, 0);
    let h = Hole { udp: put(m.udp, id, u), ..m };
    if let Some(q) = question_in(data) {
        lemma_assigned_ordered(h.names, q.name, h.next_fake());
        lemma_put_addr(h.addrs, h.next_fake().bits as u64, q.name);
    }
}

// ---- A connection ---------------------------------------------------------------

/// The transmit buffer is within its capacity.
pub open spec fn buffered(c: Conn) -> bool {
    c.tx.len() <= TX_CAPACITY
}

/// The same connection: same number, same ends.
pub open spec fn same_conn(a: Conn, b: Conn) -> bool {
    &&& b.t.id == a.t.id
    &&& b.t.flow == a.t.flow
    &&& buffered(b)
}

proof fn lemma_ack_taken<M>(c: Conn, w: World<M>, now: VirtualTime, h: TcpHeader, len: nat)
    requires
        buffered(c),
    ensures
        same_conn(c, c.ack_taken(w, now, h, len).0),
        c.ack_taken(w, now, h, len).1.up == w.up,
{
    reveal(Conn::ack_taken);
    reveal(Tcb::rtt_updated);
    let d = Conn { t: Tcb { retries: 0, ..c.t }, ..c };
    assert(same_conn(c, c.new_ack(now, h.ack)));
    assert(same_conn(c, d.new_ack(now, h.ack)));
}

proof fn lemma_send_data<M>(c: Conn, w: World<M>, now: VirtualTime)
    requires
        buffered(c),
    ensures
        same_conn(c, c.send_data(w, now).0),
        c.send_data(w, now).1.up == w.up,
    decreases c.tx.len() - c.t.in_flight(),
{
    if c.next_len() > 0 {
        reveal(wadd);
        reveal(wsub);
        let (d, w2) = c.send_next(w, now);
        lemma_send_data(d, w2, now);
    }
}

proof fn lemma_flush<M>(c: Conn, w: World<M>, now: VirtualTime)
    requires
        buffered(c),
    ensures
        same_conn(c, c.flush(w, now).0),
        c.flush(w, now).1.up == w.up,
{
    lemma_send_data(c, w, now);
}

proof fn lemma_text_input<M>(c: Conn, w: World<M>, now: VirtualTime, h: TcpHeader, payload: Seq<u8>)
    requires
        buffered(c),
    ensures
        same_conn(c, c.text_input(w, now, h, payload).0),
        c.text_input(w, now, h, payload).1.up == w.up,
{
    let (d, w2) = c.data_input(w, now, h, payload);
    assert(same_conn(c, d) && w2.up == w.up);
    assert(same_conn(d, d.fin_input(now)));
}

proof fn lemma_retransmit<M>(c: Conn, w: World<M>, now: VirtualTime)
    requires
        buffered(c),
    ensures
        same_conn(c, c.retransmit(w, now).0),
        c.retransmit(w, now).1.up == w.up,
{
}

/// The same host connections, in the same order.
pub open spec fn same_ends(a: Ends, b: Ends) -> bool {
    &&& b.conns.len() == a.conns.len()
    &&& forall|i: int| 0 <= i < b.conns.len() ==> (#[trigger] b.conns[i]).0 == a.conns[i].0
}

proof fn lemma_same_ends_ordered(a: Ends, b: Ends)
    requires
        ordered(a.conns),
        same_ends(a, b),
    ensures
        ordered(b.conns),
{
    assert forall|i: int, j: int| 0 <= i < j < b.conns.len() implies (#[trigger] b.conns[i]).0 < (
    #[trigger] b.conns[j]).0 by {
        assert(b.conns[i].0 == a.conns[i].0 && b.conns[j].0 == a.conns[j].0);
    }
}

// ---- What holds of the upstream -------------------------------------------------

/// In a state that `ok` allows, whatever the stack asks of the upstream leads to
/// such a state again.
pub open spec fn keeps_at<U: Upstream>(
    ok: spec_fn(U::Model) -> bool,
    m: U::Model,
    now: VirtualTime,
    id: ConnId,
    flow: Flow,
    data: Seq<u8>,
    room: nat,
    reset: bool,
) -> bool {
    ok(m) ==> {
        &&& ok(U::opened(m, now, id, flow))
        &&& ok(U::status_next(m, now, id))
        &&& ok(U::write_next(m, now, id, data))
        &&& ok(U::read_next(m, now, id, room))
        &&& ok(U::shut(m, now, id))
        &&& ok(U::closed(m, now, id, reset))
        &&& ok(U::udp_sent(m, now, id, flow, data))
        &&& ok(U::udp_next(m, now))
        &&& ok(U::udp_closed(m, now, id))
        &&& ok(U::ping_next(m, now, flow.remote.ip))
    }
}

/// The upstream keeps `ok`, whatever is asked of it.
pub open spec fn kept_by<U: Upstream>(ok: spec_fn(U::Model) -> bool) -> bool {
    forall|
        m: U::Model,
        now: VirtualTime,
        id: ConnId,
        flow: Flow,
        data: Seq<u8>,
        room: nat,
        reset: bool,
    | #[trigger] keeps_at::<U>(ok, m, now, id, flow, data, room, reset)
}

pub open spec fn kept<M>(ok: spec_fn(M) -> bool, a: M, b: M) -> bool {
    ok(a) ==> ok(b)
}

/// The tables of the sinkhole stay in order, whatever is asked of it.
pub proof fn law_sinkhole_keeps_its_tables()
    ensures
        kept_by::<Sinkhole>(|m: Hole| hole_tables(m)),
{
    let ok = |m: Hole| hole_tables(m);
    assert forall|
        m: Hole,
        now: VirtualTime,
        id: ConnId,
        flow: Flow,
        data: Seq<u8>,
        room: nat,
        reset: bool,
    | #[trigger] keeps_at::<Sinkhole>(ok, m, now, id, flow, data, room, reset) by {
        if hole_tables(m) {
            law_sinkhole_stays_in_order(m, now, id, flow, data, room, reset);
        }
    }
}

/// The host's connections stay the same ones, whatever the stack asks of them.
proof fn lemma_host_kept(a: Ends)
    ensures
        kept_by::<HostSide>(|m: Ends| same_ends(a, m)),
{
    let ok = |m: Ends| same_ends(a, m);
    assert forall|
        m: Ends,
        now: VirtualTime,
        id: ConnId,
        flow: Flow,
        data: Seq<u8>,
        room: nat,
        reset: bool,
    | #[trigger] keeps_at::<HostSide>(ok, m, now, id, flow, data, room, reset) by {
        lemma_rank(m.conns, id);
    }
}

// ---- A step of a connection -----------------------------------------------------

proof fn lemma_ops_kept<U: Upstream>(
    ok: spec_fn(U::Model) -> bool,
    m: U::Model,
    now: VirtualTime,
    id: ConnId,
    data: Seq<u8>,
    room: nat,
    reset: bool,
)
    requires
        kept_by::<U>(ok),
        room <= usize::MAX,
    ensures
        kept(ok, m, U::write_next(m, now, id, data)),
        kept(ok, m, U::read_next(m, now, id, room)),
        kept(ok, m, U::shut(m, now, id)),
        kept(ok, m, U::closed(m, now, id, reset)),
        kept(ok, m, U::status_next(m, now, id)),
        U::read_result(m, now, id, room) is Data ==> U::read_data(m, now, id, room).len() <= room,
{
    let flow = arbitrary::<Flow>();
    assert(keeps_at::<U>(ok, m, now, id, flow, data, room, reset));
    U::read_fits(m, now, id, room as usize);
}

proof fn lemma_finish_kept<U: Upstream>(
    ok: spec_fn(U::Model) -> bool,
    c: Conn,
    w: World<U::Model>,
    now: VirtualTime,
    reason: CloseReason,
    reset: bool,
)
    requires
        kept_by::<U>(ok),
        buffered(c),
    ensures
        same_conn(c, c.finish::<U>(w, now, reason, reset).0),
        kept(ok, w.up, c.finish::<U>(w, now, reason, reset).1.up),
{
    lemma_ops_kept::<U>(ok, w.up, now, c.t.id, Seq::empty(), 0, reset);
}

proof fn lemma_input_kept<U: Upstream>(
    ok: spec_fn(U::Model) -> bool,
    c: Conn,
    w: World<U::Model>,
    now: VirtualTime,
    h: TcpHeader,
    payload: Seq<u8>,
)
    requires
        kept_by::<U>(ok),
        buffered(c),
    ensures
        same_conn(c, c.input::<U>(w, now, h, payload).0),
        kept(ok, w.up, c.input::<U>(w, now, h, payload).1.up),
{
    lemma_finish_kept::<U>(ok, c, w, now, CloseReason::GuestReset, true);
    lemma_finish_kept::<U>(ok, c, w, now, CloseReason::Refused, true);
    let (c1, w1, v1) = if c.t.state == State::SynReceived {
        c.handshake_ack(w, now, h)
    } else {
        (c, w, Verdict::GoOn)
    };
    assert(same_conn(c, c1) && w1.up == w.up);
    lemma_ack_taken(c1, w1, now, h, payload.len());
    let (c2, w2) = c1.ack_taken(w1, now, h, payload.len());
    let c3 = c2.window_taken(h);
    assert(same_conn(c, c3));
    lemma_finish_kept::<U>(ok, c3, w2, now, CloseReason::Normal, false);
    let (c4, w4, v4) = c.ack_input::<U>(w, now, h, payload.len());
    assert(same_conn(c, c4) && kept(ok, w.up, w4.up));
    lemma_text_input(c4, w4, now, h, payload);
}

proof fn lemma_timer_kept<U: Upstream>(
    ok: spec_fn(U::Model) -> bool,
    c: Conn,
    w: World<U::Model>,
    now: VirtualTime,
)
    requires
        kept_by::<U>(ok),
        buffered(c),
    ensures
        same_conn(c, c.on_timer::<U>(w, now).0),
        kept(ok, w.up, c.on_timer::<U>(w, now).1.up),
{
    lemma_finish_kept::<U>(ok, c, w, now, CloseReason::Normal, false);
    lemma_finish_kept::<U>(ok, c, w, now, CloseReason::Timeout, true);
    let c1 = Conn { t: Tcb { rtx_deadline: None, ..c.t }, ..c };
    let c2 = Conn { t: Tcb { retries: (c1.t.retries + 1) as u32, ..c1.t }, ..c1 };
    let (c3, w3) = c2.send_rst(w);
    lemma_finish_kept::<U>(ok, c3, w3, now, CloseReason::Timeout, true);
    lemma_retransmit(c2, w, now);
}

proof fn lemma_fetch_kept<U: Upstream>(
    ok: spec_fn(U::Model) -> bool,
    c: Conn,
    w: World<U::Model>,
    now: VirtualTime,
)
    requires
        kept_by::<U>(ok),
        buffered(c),
    ensures
        same_conn(c, c.fetch::<U>(w, now).0),
        kept(ok, w.up, c.fetch::<U>(w, now).1.up),
    decreases c.tx_room(),
{
    if c.tx_room() > 0 {
        let id = c.t.id;
        let room = c.read_room();
        let w2 = World { up: U::read_next(w.up, now, id, room), ..w };
        lemma_ops_kept::<U>(ok, w.up, now, id, Seq::empty(), room, true);
        match U::read_result(w.up, now, id, room) {
            TcpRead::Data(n) => {
                let data = U::read_data(w.up, now, id, room);
                if n == 0 || data.len() == 0 {
                } else {
                    let d = Conn {
                        t: Tcb {
                            bytes_to_guest: count64(c.t.bytes_to_guest, data.len()),
                            ..c.t
                        },
                        tx: c.tx + data,
                        ..c
                    };
                    let w3 = World {
                        log: w2.log.push(
                            Event {
                                at: now,
                                kind: Fact::TcpData { id, dir: Direction::ToGuest, len: n },
                            },
                        ),
                        ..w2
                    };
                    lemma_fetch_kept::<U>(ok, d, w3, now);
                }
            },
            TcpRead::Reset => {
                let (d, w3) = c.send_rst(w2);
                lemma_finish_kept::<U>(ok, d, w3, now, CloseReason::RemoteReset, true);
            },
            _ => {},
        }
    }
}

proof fn lemma_exchange_kept<U: Upstream>(
    ok: spec_fn(U::Model) -> bool,
    c: Conn,
    w: World<U::Model>,
    now: VirtualTime,
)
    requires
        kept_by::<U>(ok),
        buffered(c),
    ensures
        same_conn(c, c.exchange::<U>(w, now).0),
        kept(ok, w.up, c.exchange::<U>(w, now).1.up),
{
    lemma_ops_kept::<U>(ok, w.up, now, c.t.id, c.rx, 0, true);
    let up1 = if c.rx.len() == 0 {
        w.up
    } else {
        U::write_next(w.up, now, c.t.id, c.rx)
    };
    lemma_ops_kept::<U>(ok, up1, now, c.t.id, c.rx, 0, true);
    let (c1, w1) = c.deliver::<U>(w, now);
    assert(same_conn(c, c1) && kept(ok, w.up, w1.up));
    let d = c1.window_checked();
    lemma_fetch_kept::<U>(ok, d, w1, now);
    let (e, w2, v) = if d.reads_upstream() {
        d.fetch::<U>(w1, now)
    } else {
        (d, w1, Verdict::GoOn)
    };
    lemma_flush(e, w2, now);
}

proof fn lemma_process_kept<U: Upstream>(
    ok: spec_fn(U::Model) -> bool,
    c: Conn,
    w: World<U::Model>,
    now: VirtualTime,
)
    requires
        kept_by::<U>(ok),
        buffered(c),
    ensures
        same_conn(c, c.process::<U>(w, now).0),
        kept(ok, w.up, c.process::<U>(w, now).1.up),
{
    lemma_exchange_kept::<U>(ok, c, w, now);
    lemma_ops_kept::<U>(ok, w.up, now, c.t.id, Seq::empty(), 0, true);
    let status = U::status(w.up, now, c.t.id);
    let w2 = World { up: U::status_next(w.up, now, c.t.id), ..w };
    let (d, w3) = c.emit(w2, 0, TCP_RST | TCP_ACK, Seq::empty());
    lemma_finish_kept::<U>(ok, d, w3, now, CloseReason::Refused, true);
    lemma_finish_kept::<U>(ok, d, w3, now, CloseReason::Timeout, true);
    let (e, w4, v) = c.opening::<U>(w2, now, status);
    assert(same_conn(c, e) && kept(ok, w.up, w4.up));
    lemma_exchange_kept::<U>(ok, e, w4, now);
}

proof fn lemma_stepped_kept<U: Upstream>(
    ok: spec_fn(U::Model) -> bool,
    c: Conn,
    w: World<U::Model>,
    now: VirtualTime,
    op: Step,
)
    requires
        kept_by::<U>(ok),
        buffered(c),
    ensures
        same_conn(c, c.stepped::<U>(w, now, op).0),
        kept(ok, w.up, c.stepped::<U>(w, now, op).1.up),
{
    match op {
        Step::Poll => {
            lemma_timer_kept::<U>(ok, c, w, now);
            let (d, w2) = c.on_timer::<U>(w, now);
            lemma_process_kept::<U>(ok, d, w2, now);
        },
        Step::Input { h, payload } => {
            lemma_input_kept::<U>(ok, c, w, now, h, payload);
            let (d, w2) = c.input::<U>(w, now, h, payload);
            lemma_process_kept::<U>(ok, d, w2, now);
        },
        Step::EndTimeWait => {
            lemma_finish_kept::<U>(ok, c, w, now, CloseReason::Normal, false);
        },
        Step::Abort => {
            lemma_finish_kept::<U>(ok, c, w, now, CloseReason::RemoteReset, true);
            let (d, w2) = c.send_rst(w);
            lemma_finish_kept::<U>(ok, d, w2, now, CloseReason::RemoteReset, true);
        },
    }
}

// ---- The stack ------------------------------------------------------------------

/// The connections stand in order, each under its own number, with its transmit
/// buffer within capacity.
pub open spec fn conns_in_order(s: Seq<(ConnId, Conn)>) -> bool {
    &&& ordered(s)
    &&& forall|i: int|
        0 <= i < s.len() ==> (#[trigger] s[i]).1.t.id == s[i].0 && buffered(s[i].1)
}

/// The tables of the stack stand in order, and its upstream is as `ok` says.
pub open spec fn stack_in_order<U: Upstream>(
    ok: spec_fn(U::Model) -> bool,
    n: Net<U::Model>,
) -> bool {
    &&& conns_in_order(n.tcp)
    &&& flows_ordered(n.tcp_index)
    &&& ordered(n.udp)
    &&& flows_ordered(n.udp_index)
    &&& ordered(n.host.conns)
    &&& ok(n.up)
}

proof fn lemma_conn_updated(s: Seq<(ConnId, Conn)>, i: int, c: Conn)
    requires
        conns_in_order(s),
        0 <= i < s.len(),
        same_conn(s[i].1, c),
    ensures
        conns_in_order(s.update(i, (s[i].0, c))),
{
    lemma_update_ordered(s, i, c);
}

proof fn lemma_conn_removed(s: Seq<(ConnId, Conn)>, i: int)
    requires
        conns_in_order(s),
        0 <= i < s.len(),
    ensures
        conns_in_order(s.remove(i)),
{
    lemma_remove_ordered(s, i);
    let t = s.remove(i);
    assert forall|a: int| 0 <= a < t.len() implies (#[trigger] t[a]).1.t.id == t[a].0 && buffered(
        t[a].1,
    ) by {
        let b = if a < i { a } else { a + 1 };
        assert(t[a] == s[b]);
    }
}

proof fn lemma_conn_put(s: Seq<(ConnId, Conn)>, c: Conn)
    requires
        conns_in_order(s),
        buffered(c),
    ensures
        conns_in_order(put(s, c.t.id, c)),
{
    let id = c.t.id;
    law_table_put(s, id, c, id);
    lemma_rank(s, id);
    let p = put(s, id, c);
    let r = rank(s, id);
    assert forall|a: int| 0 <= a < p.len() implies (#[trigger] p[a]).1.t.id == p[a].0 && buffered(
        p[a].1,
    ) by {
        if a < r {
            assert(p[a] == s[a]);
        } else if a > r {
            if keyed(s, id) {
                assert(p[a] == s[a]);
            } else {
                assert(p[a] == s[a - 1]);
            }
        }
    }
}

proof fn lemma_ended(e: Ends, id: ConnId, reason: Option<CloseReason>)
    requires
        ordered(e.conns),
    ensures
        ordered(e.ended(id, reason).conns),
{
    lemma_rank(e.conns, id);
    if keyed(e.conns, id) {
        lemma_remove_ordered(e.conns, rank(e.conns, id));
        lemma_keyed_update(e.conns, id, End { closed: reason, ..value(e.conns, id) });
    }
}

proof fn lemma_conn_stepped<U: Upstream>(
    ok: spec_fn(U::Model) -> bool,
    n: Net<U::Model>,
    i: int,
    flow: Flow,
    now: VirtualTime,
    op: Step,
)
    requires
        kept_by::<U>(ok),
        stack_in_order::<U>(ok, n),
        0 <= i < n.tcp.len(),
    ensures
        stack_in_order::<U>(ok, n.conn_stepped::<U>(i, flow, now, op)),
{
    reveal(Net::conn_stepped);
    let (id, c) = n.tcp[i];
    law_unfiled_flow_is_gone(n.tcp_index, c.t.flow);
    if keyed(n.host.conns, id) {
        let w0 = World { up: n.host, log: n.log, out: Seq::empty() };
        let ends = |m: Ends| same_ends(n.host, m);
        lemma_host_kept(n.host);
        lemma_stepped_kept::<HostSide>(ends, c, w0, now, op);
        let (d, w) = c.stepped::<HostSide>(w0, now, op);
        lemma_same_ends_ordered(n.host, w.up);
        lemma_conn_updated(n.tcp, i, d);
        let a = Net { tcp: n.tcp.update(i, (id, d)), host: w.up, log: w.log, ..n };
        lemma_sent_segments_keeps(a, flow, w.out);
        lemma_conn_removed(a.tcp, i);
        lemma_ended(a.host, id, d.t.close_reason);
    } else {
        let w0 = World { up: n.up, log: n.log, out: Seq::empty() };
        lemma_stepped_kept::<U>(ok, c, w0, now, op);
        let (d, w) = c.stepped::<U>(w0, now, op);
        lemma_conn_updated(n.tcp, i, d);
        let a = Net { tcp: n.tcp.update(i, (id, d)), up: w.up, log: w.log, ..n };
        lemma_sent_segments_keeps(a, flow, w.out);
        lemma_conn_removed(a.tcp, i);
        lemma_ended(a.host, id, d.t.close_reason);
    }
}

proof fn lemma_tcp_polled<U: Upstream>(
    ok: spec_fn(U::Model) -> bool,
    n: Net<U::Model>,
    i: int,
    k: nat,
    now: VirtualTime,
)
    requires
        kept_by::<U>(ok),
        stack_in_order::<U>(ok, n),
    ensures
        stack_in_order::<U>(ok, n.tcp_polled::<U>(i, k, now)),
    decreases k,
{
    if k > 0 && 0 <= i < n.tcp.len() {
        let op = if n.to_abort(i) { Step::Abort } else { Step::Poll };
        let flow = n.tcp[i].1.t.flow;
        lemma_conn_stepped::<U>(ok, n, i, flow, now, op);
        let a = n.conn_stepped::<U>(i, flow, now, op);
        lemma_tcp_polled::<U>(
            ok,
            a,
            if a.tcp.len() < n.tcp.len() { i } else { i + 1 },
            (k - 1) as nat,
            now,
        );
    }
}

proof fn lemma_udp_drained<U: Upstream>(
    ok: spec_fn(U::Model) -> bool,
    n: Net<U::Model>,
    now: VirtualTime,
)
    requires
        kept_by::<U>(ok),
        stack_in_order::<U>(ok, n),
    ensures
        stack_in_order::<U>(ok, udp_drained::<U>(n, now)),
    decreases U::udp_ready(n.up),
{
    let flow = arbitrary::<Flow>();
    assert(keeps_at::<U>(ok, n.up, now, 0, flow, Seq::empty(), 0, true));
    U::udp_drains(n.up, now);
    let a = Net { up: U::udp_next(n.up, now), ..n };
    if let Some((id, data)) = U::udp_result(n.up, now) {
        reveal(Net::udp_delivered);
        reveal(Net::sent_udp);
        reveal(Net::answer_logged);
        if keyed(a.udp, id) {
            let f = value(a.udp, id);
            lemma_keyed_update(
                a.udp,
                id,
                UdpFlow {
                    last_activity: now,
                    bytes_to_guest: count64(f.bytes_to_guest, data.len()),
                    ..f
                },
            );
        }
        let b = a.udp_delivered(now, id, data);
        assert(b.up == a.up && b.tcp == a.tcp && b.host == a.host);
        assert(ordered(b.udp));
        lemma_udp_drained::<U>(ok, b, now);
    }
}

proof fn lemma_udp_expired<U: Upstream>(
    ok: spec_fn(U::Model) -> bool,
    n: Net<U::Model>,
    i: int,
    k: nat,
    now: VirtualTime,
)
    requires
        kept_by::<U>(ok),
        stack_in_order::<U>(ok, n),
    ensures
        stack_in_order::<U>(ok, n.udp_expired::<U>(i, k, now)),
    decreases k,
{
    if k > 0 && 0 <= i < n.udp.len() {
        let (id, f) = n.udp[i];
        if now.0 >= f.last_activity.later(n.config.udp_idle_timeout_us).0 {
            lemma_remove_ordered(n.udp, i);
            law_unfiled_flow_is_gone(n.udp_index, f.flow);
            assert(keeps_at::<U>(ok, n.up, now, id, f.flow, Seq::empty(), 0, true));
            let a = (Net {
                udp: n.udp.remove(i),
                udp_index: unfiled(n.udp_index, f.flow),
                up: U::udp_closed(n.up, now, id),
                ..n
            }).logged(
                now,
                Fact::UdpClosed {
                    id,
                    reason: CloseReason::Idle,
                    bytes_to_remote: f.bytes_to_remote,
                    bytes_to_guest: f.bytes_to_guest,
                },
            );
            lemma_udp_expired::<U>(ok, a, i, (k - 1) as nat, now);
        } else {
            lemma_udp_expired::<U>(ok, n, i + 1, (k - 1) as nat, now);
        }
    }
}

proof fn lemma_host_opened<U: Upstream>(
    ok: spec_fn(U::Model) -> bool,
    n: Net<U::Model>,
    i: int,
    now: VirtualTime,
)
    requires
        kept_by::<U>(ok),
        stack_in_order::<U>(ok, n),
        0 <= i < n.host.conns.len(),
    ensures
        stack_in_order::<U>(ok, n.host_opened(i, now)),
{
    reveal(Net::host_opened);
    let (id, e) = n.host.conns[i];
    lemma_remove_ordered(n.host.conns, i);
    lemma_update_ordered(
        n.host.conns,
        i,
        End { pending_open: false, closed: Some(CloseReason::RemoteReset), ..e },
    );
    lemma_update_ordered(n.host.conns, i, End { pending_open: false, ..e });
    if !e.abort {
        let a = (Net {
            host: Ends {
                conns: n.host.conns.update(i, (id, End { pending_open: false, ..e })),
                ..n.host
            },
            ..n
        }).logged(now, Fact::TcpConnect { id, flow: e.flow });
        let (c, w) = Conn::towards_guest(
            id,
            e.flow,
            n.config.iss(id),
            n.config.local_mss(),
            now,
            n.config.tcp_connect_timeout_us,
        ).send_syn(World { up: (), log: a.log, out: Seq::empty() }, now, TCP_SYN);
        lemma_conn_put(a.tcp, c);
        law_filed_flow_is_found(a.tcp_index, e.flow, id);
        lemma_sent_segments_keeps(
            Net { tcp: put(a.tcp, id, c), tcp_index: filed(a.tcp_index, e.flow, id), ..a },
            e.flow,
            w.out,
        );
    }
}

proof fn lemma_hosts_opened<U: Upstream>(
    ok: spec_fn(U::Model) -> bool,
    n: Net<U::Model>,
    i: int,
    k: nat,
    now: VirtualTime,
)
    requires
        kept_by::<U>(ok),
        stack_in_order::<U>(ok, n),
    ensures
        stack_in_order::<U>(ok, n.hosts_opened(i, k, now)),
    decreases k,
{
    if k > 0 && 0 <= i < n.host.conns.len() {
        if !n.host.conns[i].1.pending_open {
            lemma_hosts_opened::<U>(ok, n, i + 1, (k - 1) as nat, now);
        } else {
            lemma_host_opened::<U>(ok, n, i, now);
            lemma_hosts_opened::<U>(
            ok,
                n.host_opened(i, now),
                if n.host.conns[i].1.abort && n.host.conns[i].1.released { i } else { i + 1 },
                (k - 1) as nat,
                now,
            );
        }
    }
}

/// A poll keeps the tables in order.
pub proof fn law_poll_keeps_order<U: Upstream>(
    ok: spec_fn(U::Model) -> bool,
    n: Net<U::Model>,
    now: VirtualTime,
)
    requires
        kept_by::<U>(ok),
        stack_in_order::<U>(ok, n),
    ensures
        stack_in_order::<U>(ok, n.polled::<U>(now)),
{
    reveal(Net::polled);
    lemma_hosts_opened::<U>(ok, n, 0, n.host.conns.len(), now);
    let a = n.hosts_opened(0, n.host.conns.len(), now);
    lemma_tcp_polled::<U>(ok, a, 0, a.tcp.len(), now);
    let b = a.tcp_polled::<U>(0, a.tcp.len(), now);
    lemma_udp_drained::<U>(ok, b, now);
    let c = udp_drained::<U>(b, now);
    lemma_udp_expired::<U>(ok, c, 0, c.udp.len(), now);
}

proof fn lemma_tcp_opened<U: Upstream>(
    ok: spec_fn(U::Model) -> bool,
    n: Net<U::Model>,
    now: VirtualTime,
    flow: Flow,
    h: TcpHeader,
)
    requires
        kept_by::<U>(ok),
        stack_in_order::<U>(ok, n),
    ensures
        stack_in_order::<U>(ok, n.tcp_opened::<U>(now, flow, h)),
{
    reveal(Net::tcp_opened);
    let id = n.next_id;
    assert(keeps_at::<U>(ok, n.up, now, id, flow, Seq::empty(), 0, true));
    let a = (Net {
        next_id: (n.next_id + 1) as u64,
        up: U::opened(n.up, now, id, flow),
        ..n
    }).logged(now, Fact::TcpOpen { id, flow });
    let c0 = Conn::from_syn(
        id,
        flow,
        h,
        n.config.iss(id),
        n.config.local_mss(),
        now,
        n.config.tcp_connect_timeout_us,
    );
    let w0 = World { up: a.up, log: a.log, out: Seq::empty() };
    lemma_process_kept::<U>(ok, c0, w0, now);
    let (c, w) = c0.process::<U>(w0, now);
    lemma_sent_segments_keeps(Net { up: w.up, log: w.log, ..a }, flow, w.out);
    lemma_conn_put(a.tcp, c);
    law_filed_flow_is_found(a.tcp_index, flow, id);
}

proof fn lemma_tcp_handled<U: Upstream>(
    ok: spec_fn(U::Model) -> bool,
    n: Net<U::Model>,
    now: VirtualTime,
    ip: Ipv4Header,
    segment: Seq<u8>,
)
    requires
        kept_by::<U>(ok),
        stack_in_order::<U>(ok, n),
    ensures
        stack_in_order::<U>(ok, n.tcp_handled::<U>(now, ip, segment)),
{
    reveal(Net::tcp_handled);
    let h = wire::tcp_at(ip.src, ip.dst, segment);
    let flow = Flow {
        guest: SocketAddrV4 { ip: ip.src, port: h.src_port },
        remote: SocketAddrV4 { ip: ip.dst, port: h.dst_port },
    };
    let payload = segment.skip(wire::data_offset(segment));
    lemma_tcp_dispatched::<U>(ok, n, now, flow, h, payload);
}

proof fn lemma_tcp_dispatched<U: Upstream>(
    ok: spec_fn(U::Model) -> bool,
    n: Net<U::Model>,
    now: VirtualTime,
    flow: Flow,
    h: TcpHeader,
    payload: Seq<u8>,
)
    requires
        kept_by::<U>(ok),
        stack_in_order::<U>(ok, n),
    ensures
        stack_in_order::<U>(ok, n.tcp_dispatched::<U>(now, flow, h, payload)),
{
    reveal(Net::tcp_dispatched);
    reveal(Net::tcp_given);
    lemma_tcp_opened::<U>(ok, n, now, flow, h);
    if let Some(id) = conn_of_flow(n.tcp_index, flow) {
        if keyed(n.tcp, id) {
            let i = rank(n.tcp, id);
            lemma_rank(n.tcp, id);
            let reopened = n.tcp[i].1.t.state == State::TimeWait && opens(h);
            let op = if reopened { Step::EndTimeWait } else { Step::Input { h, payload } };
            lemma_conn_stepped::<U>(ok, n, i, flow, now, op);
            lemma_tcp_opened::<U>(ok, n.conn_stepped::<U>(i, flow, now, op), now, flow, h);
        }
    }
}

proof fn lemma_udp_handled<U: Upstream>(
    ok: spec_fn(U::Model) -> bool,
    n: Net<U::Model>,
    now: VirtualTime,
    ip: Ipv4Header,
    packet: Seq<u8>,
    segment: Seq<u8>,
)
    requires
        kept_by::<U>(ok),
        stack_in_order::<U>(ok, n),
    ensures
        stack_in_order::<U>(ok, n.udp_handled::<U>(now, ip, packet, segment)),
{
    reveal(Net::udp_handled);
    let udp = wire::udp_at(ip.src, ip.dst, segment);
    let flow = Flow {
        guest: SocketAddrV4 { ip: ip.src, port: udp.src_port },
        remote: SocketAddrV4 { ip: ip.dst, port: udp.dst_port },
    };
    lemma_udp_taken::<U>(ok, n, now, flow, wire::udp_payload(segment));
}

proof fn lemma_udp_taken<U: Upstream>(
    ok: spec_fn(U::Model) -> bool,
    n: Net<U::Model>,
    now: VirtualTime,
    flow: Flow,
    data: Seq<u8>,
)
    requires
        kept_by::<U>(ok),
        stack_in_order::<U>(ok, n),
    ensures
        stack_in_order::<U>(ok, n.udp_taken::<U>(now, flow, data)),
{
    reveal(Net::udp_taken);
    reveal(Net::question_logged);
    let known = conn_of_flow(n.udp_index, flow) is Some;
    let id = if known { conn_of_flow(n.udp_index, flow)->0 } else { n.next_id };
    let f = if known {
        value(n.udp, id)
    } else {
        UdpFlow { flow, last_activity: now, bytes_to_remote: 0, bytes_to_guest: 0 }
    };
    let g = UdpFlow {
        last_activity: now,
        bytes_to_remote: count64(f.bytes_to_remote, data.len()),
        ..f
    };
    if known {
        if keyed(n.udp, id) {
            lemma_keyed_update(n.udp, id, g);
        }
    } else {
        law_table_put(n.udp, id, g, 0);
        law_filed_flow_is_found(n.udp_index, flow, id);
    }
    assert(keeps_at::<U>(ok, n.up, now, id, flow, data, 0, true));
}

proof fn lemma_frame_handled<U: Upstream>(
    ok: spec_fn(U::Model) -> bool,
    n: Net<U::Model>,
    now: VirtualTime,
    frame: Seq<u8>,
)
    requires
        kept_by::<U>(ok),
        stack_in_order::<U>(ok, n),
    ensures
        stack_in_order::<U>(ok, n.frame_handled::<U>(now, frame)),
{
    reveal(Net::frame_handled);
    let eth = wire::eth_at(frame);
    let a = if eth.src.b0 & 1 == 0 && eth.src != Mac::all(0) {
        Net { guest_mac: Some(eth.src), ..n }
    } else {
        n
    };
    let packet = frame.skip(14);
    assert(stack_in_order::<U>(ok, a.arp_handled(packet))) by {
        reveal(Net::arp_handled);
    }
    assert(stack_in_order::<U>(ok, a.ipv4_handled::<U>(now, packet))) by {
        reveal(Net::ipv4_handled);
        let ip = wire::ipv4_at(packet);
        let payload = wire::ipv4_payload(packet);
        assert(stack_in_order::<U>(ok, a.dhcp_handled(now, wire::udp_payload(payload)))) by {
            reveal(Net::dhcp_handled);
        }
        assert(stack_in_order::<U>(ok, a.icmp_handled::<U>(now, ip, payload))) by {
            reveal(Net::icmp_handled);
            let flow = Flow {
                guest: SocketAddrV4 { ip: ip.src, port: 0 },
                remote: SocketAddrV4 { ip: ip.dst, port: 0 },
            };
            assert(keeps_at::<U>(ok, a.up, now, 0, flow, Seq::empty(), 0, true));
        }
        lemma_udp_handled::<U>(ok, a, now, ip, packet, payload);
        lemma_tcp_handled::<U>(ok, a, now, ip, payload);
    }
}

/// A frame of the guest keeps the tables in order.
pub proof fn law_receive_keeps_order<U: Upstream>(
    ok: spec_fn(U::Model) -> bool,
    n: Net<U::Model>,
    now: VirtualTime,
    frame: Seq<u8>,
)
    requires
        kept_by::<U>(ok),
        stack_in_order::<U>(ok, n),
    ensures
        stack_in_order::<U>(ok, n.received::<U>(now, frame)),
{
    let a = Net {
        stats: Stats {
            frames_in: bump(n.stats.frames_in),
            ..n.stats
        },
        ..n
    };
    lemma_frame_handled::<U>(ok, a, now, frame);
    law_poll_keeps_order::<U>(ok, a.frame_handled::<U>(now, frame), now);
}

/// What the host does with its connections keeps the tables in order: a new
/// connection, a change of one, and one that goes.
pub proof fn law_host_keeps_tables<U: Upstream>(
    ok: spec_fn(U::Model) -> bool,
    n: Net<U::Model>,
    port: u16,
    id: ConnId,
    e: End,
)
    requires
        kept_by::<U>(ok),
        stack_in_order::<U>(ok, n),
    ensures
        stack_in_order::<U>(ok, n.host_connected(port).0),
        keyed(n.host.conns, id) ==> stack_in_order::<U>(ok, n.with_end(id, e)),
        keyed(n.host.conns, id) ==> ordered(n.host.conns.remove(rank(n.host.conns, id))),
{
    if let Some(p) = n.free_port(
        port,
        first_port(n.host.next_port),
        16_384,
    ) {
        law_table_put(n.host.conns, n.next_id, End::asked(n.host_flow(port, p)), 0);
    }
    if keyed(n.host.conns, id) {
        lemma_rank(n.host.conns, id);
        lemma_keyed_update(n.host.conns, id, e);
        lemma_remove_ordered(n.host.conns, rank(n.host.conns, id));
    }
}

/// Whatever comes from the guest, and whenever it is polled, a stack whose tables
/// stand in order keeps them so.
pub proof fn law_tables_stay_in_order<U: Upstream>(
    ok: spec_fn(U::Model) -> bool,
    n: Net<U::Model>,
    actions: Seq<Action>,
)
    requires
        kept_by::<U>(ok),
        stack_in_order::<U>(ok, n),
    ensures
        stack_in_order::<U>(ok, played::<U>(n, actions)),
    decreases actions.len(),
{
    if actions.len() > 0 {
        law_tables_stay_in_order::<U>(ok, n, actions.drop_last());
        let a = played::<U>(n, actions.drop_last());
        match actions.last() {
            Action::Receive { now, frame } => law_receive_keeps_order::<U>(ok, a, now, frame),
            Action::Poll { now } => law_poll_keeps_order::<U>(ok, a, now),
            Action::Pop => {},
        }
    }
}

} // verus!
