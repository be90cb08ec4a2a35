//! What a packet does to a vsock stream, and what the host sends on it.
use vstd::prelude::*;
use crate::bytes::zeros;
use crate::platform::virtio::queue::{gathered, total, Chain};
use crate::platform::virtio::ram::{Mem, RamError};
use crate::platform::virtio::vsock::{port_after, Hdr, Link, Vsock, VsockConn, VsockState, FIRST_HOST_PORT, HOST_BUF_ALLOC, HOST_CID, MAX_PKT, OP_CREDIT_REQUEST, OP_CREDIT_UPDATE, OP_REQUEST, OP_RESPONSE, OP_RST, OP_RW, OP_SHUTDOWN, SHUTDOWN_BOTH, SHUTDOWN_SEND, TYPE_STREAM};
use crate::table::{keyed, law_table_put, ordered, value};

verus! {

/// The connection that a packet of the guest belongs to.
pub open spec fn conn_of(h: Hdr) -> VsockConn {
    VsockConn { host_port: h.dst_port, guest_port: h.src_port }
}

/// A packet of the guest to the host, on a stream.
pub open spec fn is_addressed(s: Vsock, h: Hdr) -> bool {
    h.src_cid == s.guest_cid && h.dst_cid == HOST_CID && h.ty == TYPE_STREAM
}

/// The connection exists and is not closed.
pub open spec fn is_alive(s: Vsock, c: VsockConn) -> bool {
    s.has_conn(c) && s.link(c).state != VsockState::Closed
}

proof fn lemma_key(c: VsockConn, o: VsockConn)
    ensures
        c.key() == o.key() <==> c == o,
{
}

proof fn lemma_linked(s: Vsock, c: VsockConn, l: Link, o: VsockConn)
    requires
        ordered(s.conns),
    ensures
        ({
            let t = s.with_link(c, l);
            &&& ordered(t.conns)
            &&& t.has_conn(c) && t.link(c) == l
            &&& o != c ==> t.has_conn(o) == s.has_conn(o)
            &&& o != c && s.has_conn(o) ==> t.link(o) == s.link(o)
        }),
{
    lemma_key(c, o);
    law_table_put(s.conns, c.key(), l, o.key());
}

/// The link after a packet, before what its operation does.
spec fn renewed(k: Link, h: Hdr) -> Link {
    Link { peer_buf_alloc: h.buf_alloc, peer_fwd_cnt: h.fwd_cnt, ..k }
}

proof fn lemma_steps(s: Vsock, h: Hdr, payload: Seq<u8>, o: VsockConn)
    requires
        ordered(s.conns),
    ensures
        ({
            let c = conn_of(h);
            let k = renewed(s.link(c), h);
            forall|l: Link| #![trigger s.with_link(c, l)] {
                let t = s.with_link(c, l);
                let b = t.with_link(c, l.closed());
                &&& ordered(t.conns) && t.has_conn(c) && t.link(c) == l
                &&& ordered(b.conns) && b.has_conn(c) && b.link(c) == l.closed()
                &&& o != c ==> t.has_conn(o) == s.has_conn(o) && b.has_conn(o) == s.has_conn(o)
                &&& o != c && s.has_conn(o) ==> t.link(o) == s.link(o) && b.link(o) == s.link(o)
            }
        }),
{
    let c = conn_of(h);
    assert forall|l: Link| #![trigger s.with_link(c, l)] ({
        let t = s.with_link(c, l);
        let b = t.with_link(c, l.closed());
        &&& ordered(t.conns) && t.has_conn(c) && t.link(c) == l
        &&& ordered(b.conns) && b.has_conn(c) && b.link(c) == l.closed()
        &&& o != c ==> t.has_conn(o) == s.has_conn(o) && b.has_conn(o) == s.has_conn(o)
        &&& o != c && s.has_conn(o) ==> t.link(o) == s.link(o) && b.link(o) == s.link(o)
    }) by {
        lemma_linked(s, c, l, o);
        lemma_linked(s.with_link(c, l), c, l.closed(), o);
    }
}

/// Every packet of the guest on a connection that is not closed, whatever its
/// operation is, renews the credit of the host: the room that it announces, less
/// what was sent and not consumed by its count.
pub proof fn law_every_packet_renews_the_credit(s: Vsock, h: Hdr, payload: Seq<u8>)
    requires
        ordered(s.conns),
        is_addressed(s, h),
        is_alive(s, conn_of(h)),
    ensures
        ({
            let c = conn_of(h);
            let k = s.received(h, payload).link(c);
            let under_way = (s.link(c).tx_cnt - h.fwd_cnt) % 0x1_0000_0000;
            &&& s.received(h, payload).has_conn(c)
            &&& k.tx_cnt == s.link(c).tx_cnt
            &&& k.credit() == if h.buf_alloc >= under_way { h.buf_alloc - under_way } else { 0 }
        }),
{
    lemma_steps(s, h, payload, conn_of(h));
}

/// A packet of the guest touches its own connection only; the ports that listen,
/// the next port and the counts stay.
pub proof fn law_packet_touches_its_connection_only(
    s: Vsock,
    h: Hdr,
    payload: Seq<u8>,
    o: VsockConn,
)
    requires
        ordered(s.conns),
        is_addressed(s, h),
        o != conn_of(h),
    ensures
        ({
            let t = s.received(h, payload);
            &&& t.has_conn(o) == s.has_conn(o)
            &&& s.has_conn(o) ==> t.link(o) == s.link(o)
            &&& t.listening == s.listening && t.guest_cid == s.guest_cid
            &&& t.next_port == s.next_port && t.dropped == s.dropped
            &&& t.reset_event == s.reset_event
            &&& s.control.is_prefix_of(t.control)
            &&& t.control.len() <= s.control.len() + 1
        }),
{
    lemma_steps(s, h, payload, o);
    assert(s.control.is_prefix_of(s.control));
}

/// The packet that breaks a connection, for the guest.
pub open spec fn is_reset_of(s: Vsock, c: VsockConn, o: Hdr) -> bool {
    &&& o.op == OP_RST && o.ty == TYPE_STREAM
    &&& o.src_cid == HOST_CID && o.dst_cid == s.guest_cid
    &&& o.src_port == c.host_port && o.dst_port == c.guest_port
    &&& o.len == 0
}

/// What each operation does to an alive connection. RST closes it without an
/// answer. RESPONSE opens one that the host asked for. Data joins what the host
/// can read. CREDIT_UPDATE does no more than renew the credit, CREDIT_REQUEST is
/// owed an update. SHUTDOWN of the sending side ends the stream; that of both
/// sides, or the one that answers the host's, is answered with RST and closes.
/// Anything else breaks the rules: it is answered with RST and closes. What was
/// received stays readable in every case.
pub proof fn law_operations_on_a_connection(s: Vsock, h: Hdr, payload: Seq<u8>)
    requires
        ordered(s.conns),
        is_addressed(s, h),
        is_alive(s, conn_of(h)),
    ensures
        ({
            let c = conn_of(h);
            let t = s.received(h, payload);
            let k = s.link(c);
            let l = t.link(c);
            let open = k.state == VsockState::Connected || k.state == VsockState::Closing;
            let both = h.flags & SHUTDOWN_BOTH == SHUTDOWN_BOTH;
            let silent = t.control == s.control;
            let reset = l.state == VsockState::Closed && l.tx_buf.len() == 0 && t.control.len()
                == s.control.len() + 1 && t.control.drop_last() == s.control && is_reset_of(
                s,
                c,
                t.control.last(),
            );
            &&& l.fwd_cnt == k.fwd_cnt && l.last_fwd_sent == k.last_fwd_sent
            &&& l.send_closed == k.send_closed && l.shutdown_pending == k.shutdown_pending
            &&& h.op != OP_RW || !open ==> l.rx_buf == k.rx_buf && l.rx_cnt == k.rx_cnt
            &&& h.op == OP_RST ==> l.state == VsockState::Closed && silent && l.peer_eof
                == k.peer_eof
            &&& h.op == OP_RESPONSE && k.state == VsockState::Connecting ==> {
                &&& silent && l.tx_buf == k.tx_buf
                &&& l.state == if k.shutdown_pending == SHUTDOWN_BOTH {
                    VsockState::Closing
                } else {
                    VsockState::Connected
                }
            }
            &&& h.op == OP_RW && open ==> {
                &&& silent && l.state == k.state && l.tx_buf == k.tx_buf
                &&& l.rx_buf == k.rx_buf + payload
                &&& l.rx_cnt == (k.rx_cnt + payload.len() as u32) % 0x1_0000_0000
                &&& l.credit_update == k.credit_update && l.peer_eof == k.peer_eof
            }
            &&& h.op == OP_CREDIT_UPDATE && open ==> silent && l.state == k.state && l.tx_buf
                == k.tx_buf && l.credit_update == k.credit_update && l.peer_eof == k.peer_eof
            &&& h.op == OP_CREDIT_REQUEST && open ==> silent && l.state == k.state && l.tx_buf
                == k.tx_buf && l.credit_update && l.peer_eof == k.peer_eof
            &&& h.op == OP_SHUTDOWN && open ==> {
                &&& l.peer_eof == (k.peer_eof || h.flags & SHUTDOWN_SEND != 0)
                &&& if both || k.state == VsockState::Closing {
                    reset
                } else {
                    silent && l.state == k.state && l.tx_buf == k.tx_buf && l.credit_update
                        == k.credit_update
                }
            }
            &&& h.op != OP_RST && !open && h.op != OP_RESPONSE ==> reset
            &&& open && (h.op == OP_REQUEST || h.op == OP_RESPONSE || h.op == 0 || h.op
                > OP_CREDIT_REQUEST) ==> reset
        }),
{
    let c = conn_of(h);
    lemma_steps(s, h, payload, c);
    let t = s.received(h, payload);
    if t.control.len() > s.control.len() {
        assert(t.control.drop_last() =~= s.control);
    }
}

/// A packet that belongs to no connection, or to a closed one: a REQUEST to a
/// port that listens opens a connection with the credit it announces, answers
/// with RESPONSE and lets it wait behind the others; an RST is ignored; any other
/// is answered with RST.
pub proof fn law_packets_without_a_connection(s: Vsock, h: Hdr, payload: Seq<u8>)
    requires
        ordered(s.conns) && ordered(s.backlog),
        h.src_cid == s.guest_cid && h.dst_cid == HOST_CID,
        h.ty != TYPE_STREAM || !is_alive(s, conn_of(h)),
    ensures
        ({
            let c = conn_of(h);
            let t = s.received(h, payload);
            let asked = h.ty == TYPE_STREAM && h.op == OP_REQUEST && keyed(
                s.listening,
                h.dst_port as u64,
            );
            let port = h.dst_port as u64;
            let waited = if keyed(s.backlog, port) {
                value(s.backlog, port)
            } else {
                Seq::empty()
            };
            &&& h.op == OP_RST ==> t == s
            &&& h.op != OP_RST && !asked ==> {
                &&& t.conns == s.conns && t.backlog == s.backlog && t.dropped == s.dropped
                &&& t.control.len() == s.control.len() + 1 && t.control.drop_last() == s.control
                &&& is_reset_of(s, c, t.control.last())
            }
            &&& asked ==> {
                let k = t.link(c);
                let o = t.control.last();
                &&& t.has_conn(c) && k.state == VsockState::Connected
                &&& k.tx_buf.len() == 0 && k.rx_buf.len() == 0 && !k.peer_eof && !k.send_closed
                &&& k.credit() == h.buf_alloc - (if (0 - h.fwd_cnt) % 0x1_0000_0000
                    <= h.buf_alloc {
                    (0 - h.fwd_cnt) % 0x1_0000_0000
                } else {
                    h.buf_alloc as int
                })
                &&& keyed(t.backlog, port) && value(t.backlog, port) == waited.push(c)
                &&& t.control.len() == s.control.len() + 1 && t.control.drop_last() == s.control
                &&& o.op == OP_RESPONSE && o.ty == TYPE_STREAM && o.len == 0
                &&& o.src_cid == HOST_CID && o.dst_cid == s.guest_cid
                &&& o.src_port == c.host_port && o.dst_port == c.guest_port
                &&& o.buf_alloc == HOST_BUF_ALLOC && o.fwd_cnt == 0
            }
        }),
{
    let c = conn_of(h);
    let t = s.received(h, payload);
    lemma_steps(s, h, payload, c);
    let port = h.dst_port as u64;
    let waited = if keyed(s.backlog, port) { value(s.backlog, port) } else { Seq::empty() };
    law_table_put(s.backlog, port, waited.push(c), port);
    if t.control.len() > s.control.len() {
        assert(t.control.drop_last() =~= s.control);
    }
}

/// The connection has nothing to say that fits into `room` bytes.
pub open spec fn is_mute(k: Link, room: nat) -> bool {
    let under_way = (k.tx_cnt - k.peer_fwd_cnt) % 0x1_0000_0000;
    let open = k.state == VsockState::Connected || k.state == VsockState::Closing;
    !open || {
        &&& k.tx_buf.len() == 0 || k.peer_buf_alloc <= under_way || room == 0
        &&& k.tx_buf.len() > 0 || k.shutdown_pending == 0
        &&& !k.credit_update
    }
}

proof fn lemma_mute_are_passed(s: Vsock, i: nat, j: nat, room: nat)
    requires
        j <= i <= s.conns.len(),
        forall|n: int| j <= n < i ==> is_mute((#[trigger] s.conns[n]).1, room),
    ensures
        s.next_from(j, room) == s.next_from(i, room),
    decreases i - j,
{
    if j < i {
        assert(is_mute(s.conns[j as int].1, room));
        lemma_mute_are_passed(s, i, j + 1, room);
    }
}

/// The first connection that has something to say says it. Data goes first: as
/// many bytes from the front of the queue as the queue, the credit, the room and
/// the largest load allow, all at once; they leave the queue and count as sent.
/// Then, with nothing left to send, the SHUTDOWN that is owed; then the credit
/// update. The header tells the length and the host's own credit.
pub proof fn law_first_connection_with_something_to_say(s: Vsock, i: nat, room: nat)
    requires
        s.control.len() == 0,
        i < s.conns.len(),
        forall|n: int| 0 <= n < i ==> is_mute((#[trigger] s.conns[n]).1, room),
        !is_mute(s.conns[i as int].1, room),
    ensures
        ({
            let (t, packet) = s.next_packet(room);
            let k = s.conns[i as int].1;
            let c = VsockConn::of(s.conns[i as int].0);
            let l = t.conns[i as int].1;
            let under_way = (k.tx_cnt - k.peer_fwd_cnt) % 0x1_0000_0000;
            let credit = k.peer_buf_alloc - under_way;
            &&& packet matches Some((h, data)) && {
                &&& h.src_cid == HOST_CID && h.dst_cid == s.guest_cid && h.ty == TYPE_STREAM
                &&& h.src_port == c.host_port && h.dst_port == c.guest_port
                &&& h.len == data.len()
                &&& h.buf_alloc == HOST_BUF_ALLOC && h.fwd_cnt == k.fwd_cnt
                &&& k.tx_buf.len() > 0 && credit > 0 && room > 0 ==> {
                    &&& h.op == OP_RW && h.flags == 0
                    &&& data.len() <= k.tx_buf.len() && data.len() <= credit && data.len() <= room
                        && data.len() <= MAX_PKT
                    &&& data.len() == k.tx_buf.len() || data.len() == credit || data.len() == room
                        || data.len() == MAX_PKT
                    &&& data + l.tx_buf == k.tx_buf
                    &&& l.tx_cnt == (k.tx_cnt + data.len()) % 0x1_0000_0000
                    &&& l.shutdown_pending == k.shutdown_pending
                }
                &&& k.tx_buf.len() == 0 && k.shutdown_pending != 0 ==> h.op == OP_SHUTDOWN && h.flags
                    == k.shutdown_pending && l.shutdown_pending == 0 && data.len() == 0
                &&& k.tx_buf.len() == 0 && k.shutdown_pending == 0 ==> h.op == OP_CREDIT_UPDATE
                    && !l.credit_update && data.len() == 0
            }
            &&& l.state == k.state && l.rx_buf == k.rx_buf
            &&& t.conns.len() == s.conns.len()
            &&& forall|n: int| 0 <= n < s.conns.len() && n != i ==> t.conns[n] == s.conns[n]
        }),
{
    lemma_mute_are_passed(s, i, 0, room);
    let k = s.conns[i as int].1;
    let n = k.portion(room);
    if k.tx_buf.len() > 0 {
        assert(k.tx_buf.take(n as int) + k.tx_buf.skip(n as int) =~= k.tx_buf);
    }
}

/// If no connection has anything to say, nothing leaves and nothing changes.
pub proof fn law_mute_device_says_nothing(s: Vsock, room: nat)
    requires
        s.control.len() == 0,
        forall|n: int| 0 <= n < s.conns.len() ==> is_mute((#[trigger] s.conns[n]).1, room),
    ensures
        s.next_packet(room) == (s, None::<(Hdr, Seq<u8>)>),
{
    lemma_mute_are_passed(s, s.conns.len(), 0, room);
}

/// A packet that carries data renews the credit, so that the stream goes on: with
/// the other connections mute, the next packet takes as much of the queue as the
/// credit in that packet allows.
pub proof fn law_data_packet_lets_the_stream_go_on(
    s: Vsock,
    h: Hdr,
    payload: Seq<u8>,
    i: nat,
    room: nat,
)
    requires
        ordered(s.conns),
        is_addressed(s, h),
        h.op == OP_RW,
        i < s.conns.len() && s.conns[i as int].0 == conn_of(h).key(),
        s.conns[i as int].1.open(),
        s.control.len() == 0,
        forall|n: int| 0 <= n < i ==> is_mute((#[trigger] s.conns[n]).1, room),
        s.conns[i as int].1.tx_buf.len() > 0,
        h.buf_alloc > (s.conns[i as int].1.tx_cnt - h.fwd_cnt) % 0x1_0000_0000,
        0 < room <= MAX_PKT,
    ensures
        ({
            let k = s.conns[i as int].1;
            let credit = h.buf_alloc - (k.tx_cnt - h.fwd_cnt) % 0x1_0000_0000;
            let (t, packet) = s.received(h, payload).next_packet(room);
            &&& packet matches Some((o, data)) && {
                &&& o.op == OP_RW
                &&& data.len() > 0 && data + t.conns[i as int].1.tx_buf == k.tx_buf
                &&& data.len() == k.tx_buf.len() || data.len() == credit || data.len() == room
                &&& data.len() <= credit
            }
        }),
{
    let c = conn_of(h);
    crate::table::lemma_rank_at(s.conns, c.key(), i as int);
    let t = s.received(h, payload);
    let k = renewed(s.link(c), h);
    let l = Link { rx_cnt: k.rx_cnt.wrapping_add(payload.len() as u32), rx_buf: k.rx_buf + payload, ..k };
    assert(t == s.with_link(c, l));
    assert(t.conns == s.conns.update(i as int, (c.key(), l)));
    assert forall|n: int| 0 <= n < i implies is_mute((#[trigger] t.conns[n]).1, room) by {
        assert(t.conns[n] == s.conns[n]);
    }
    law_first_connection_with_something_to_say(t, i, room);
}

/// What the host asks for with a connection: a fresh one, and a REQUEST with the
/// host's credit, from the port, to the guest's; the next one comes from a later
/// port.
pub proof fn law_connect_asks_the_guest(s: Vsock, p: u32, guest_port: u32)
    requires
        ordered(s.conns),
    ensures
        ({
            let c = VsockConn { host_port: p, guest_port };
            let t = s.connecting(p, guest_port);
            let o = t.control.last();
            &&& t.has_conn(c) && t.link(c).state == VsockState::Connecting
            &&& t.link(c).tx_buf.len() == 0 && t.link(c).rx_buf.len() == 0 && t.link(c).tx_cnt == 0
                && t.link(c).peer_buf_alloc == 0
            &&& t.control.len() == s.control.len() + 1 && t.control.drop_last() == s.control
            &&& o.op == OP_REQUEST && o.ty == TYPE_STREAM && o.len == 0
            &&& o.src_cid == HOST_CID && o.dst_cid == s.guest_cid
            &&& o.src_port == p && o.dst_port == guest_port
            &&& o.buf_alloc == HOST_BUF_ALLOC && o.fwd_cnt == 0
            &&& t.next_port == if p < u32::MAX { (p + 1) as u32 } else { FIRST_HOST_PORT }
        }),
{
    let c = VsockConn { host_port: p, guest_port };
    let s2 = Vsock { next_port: port_after(p), ..s };
    lemma_linked(s2, c, Link::fresh(VsockState::Connecting), c);
    assert(s.connecting(p, guest_port).control.drop_last() =~= s.control);
}

/// Reading frees credit: the bytes read count as consumed, and a guest that sees
/// less than a quarter of the host's buffer free is owed an update.
pub proof fn law_reading_frees_credit(k: Link, n: nat)
    requires
        n <= k.rx_buf.len(),
        n <= u32::MAX,
    ensures
        ({
            let l = k.consumed(n);
            let seen = (k.rx_cnt - k.last_fwd_sent) % 0x1_0000_0000;
            let open = k.state == VsockState::Connected || k.state == VsockState::Closing;
            &&& l.fwd_cnt == (k.fwd_cnt + n) % 0x1_0000_0000
            &&& k.rx_buf.take(n as int) + l.rx_buf == k.rx_buf
            &&& n > 0 && open && seen > HOST_BUF_ALLOC * 3 / 4 ==> l.credit_update
            &&& !open || n == 0 || seen <= HOST_BUF_ALLOC * 3 / 4 ==> l.credit_update
                == k.credit_update
            &&& l.state == k.state && l.tx_buf == k.tx_buf && l.tx_cnt == k.tx_cnt && l.rx_cnt
                == k.rx_cnt && l.peer_buf_alloc == k.peer_buf_alloc && l.peer_fwd_cnt
                == k.peer_fwd_cnt
        }),
{
    assert(k.rx_buf.take(n as int) + k.rx_buf.skip(n as int) =~= k.rx_buf);
}

/// A packet that leaves is remembered as the one that announced the host's credit.
pub proof fn law_announced_credit_is_remembered(s: Vsock, h: Hdr)
    requires
        ordered(s.conns),
        s.has_conn(VsockConn { host_port: h.src_port, guest_port: h.dst_port }),
    ensures
        ({
            let c = VsockConn { host_port: h.src_port, guest_port: h.dst_port };
            s.announced(h).link(c) == (Link { last_fwd_sent: h.fwd_cnt, ..s.link(c) })
        }),
{
    let c = VsockConn { host_port: h.src_port, guest_port: h.dst_port };
    lemma_linked(s, c, Link { last_fwd_sent: h.fwd_cnt, ..s.link(c) }, c);
}

/// A chain with a whole packet is received as that packet: the payload is what
/// stands behind the header, as long as the header says. One whose header is cut
/// short, announces more than the largest load or more than the chain holds, is
/// dropped and counted.
pub proof fn law_chain_is_a_packet(s: Vsock, c: Chain, m: Mem, b: Seq<u8>)
    requires
        b.len() <= 44,
    ensures
        ({
            let r = s.chain_taken(c, m, b);
            let h = Hdr::of(b);
            &&& b.len() < 44 ==> r == Ok::<Vsock, RamError>(
                Vsock { dropped: s.dropped.wrapping_add(1), ..s },
            )
            &&& b.len() == 44 && (h.len > 65_536 || total(c.readable) < 44 + h.len) ==> r == Ok::<
                Vsock,
                RamError,
            >(Vsock { dropped: s.dropped.wrapping_add(1), ..s })
            &&& b.len() == 44 && h.len <= 65_536 && total(c.readable) >= 44 + h.len ==> match gathered(
                m,
                c.readable,
                44,
                h.len as int,
            ) {
                Ok(payload) => r == Ok::<Vsock, RamError>(s.received(h, payload)),
                Err(e) => r == Err::<Vsock, RamError>(e),
            }
        }),
{
    if b.len() == 44 {
        assert(b + zeros(0) =~= b);
    }
}

} // verus!
