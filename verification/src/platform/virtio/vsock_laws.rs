//! What holds of every vsock device.
use vstd::prelude::*;
use crate::platform::virtio::queue::{gathered, scattered, total, Virtqueue};
use crate::platform::virtio::ram::Mem;
use crate::platform::virtio::vsock::{dropped_from, FIRST_HOST_PORT, HOST_BUF_ALLOC, HOST_CID, Hdr, Link, OP_CREDIT_REQUEST, OP_CREDIT_UPDATE, OP_REQUEST, OP_RESPONSE, OP_RST, OP_RW, OP_SHUTDOWN, SHUTDOWN_BOTH, SHUTDOWN_SEND, TYPE_STREAM, Vsock, VsockConn, VsockState};
use crate::platform::virtio::{Work, SERVICE_LIMIT};
use crate::bytes::{le16_bytes, le32_bytes, le64_bytes, lemma_le16_in, lemma_le32_in, lemma_le64_in, min_len, zeros};
use crate::table::{keyed, law_table_put, law_table_without, lemma_rank, ordered, put, rank, value, without};

verus! {

/// Control packets go before data, in the order in which they came to be.
pub proof fn law_control_packets_go_first(s: Vsock, h: Hdr, room: nat)
    ensures
        s.control.len() > 0 ==> s.next_packet(room).1 == Some((s.control[0], Seq::<u8>::empty()))
            && s.next_packet(room).0.control == s.control.skip(1),
        s.queued(h).control == s.control.push(h),
{
}

/// A request to a port where the host listens is answered with RESPONSE; the
/// connection is open and waits to be accepted, after those that wait already.
pub proof fn law_request_is_accepted(s: Vsock, h: Hdr, payload: Seq<u8>)
    requires
        ordered(s.conns) && ordered(s.backlog),
        h.src_cid == s.guest_cid && h.dst_cid == HOST_CID,
        h.ty == TYPE_STREAM && h.op == OP_REQUEST,
        keyed(s.listening, h.dst_port as u64),
        !s.has_conn(VsockConn { host_port: h.dst_port, guest_port: h.src_port }),
    ensures
        ({
            let c = VsockConn { host_port: h.dst_port, guest_port: h.src_port };
            let t = s.received(h, payload);
            &&& t.has_conn(c) && t.link(c).state == VsockState::Connected
            &&& t.control.len() == s.control.len() + 1
            &&& t.control.last().op == OP_RESPONSE
            &&& t.control.last().src_port == c.host_port && t.control.last().dst_port
                == c.guest_port
            &&& keyed(t.backlog, h.dst_port as u64)
            &&& value(t.backlog, h.dst_port as u64).last() == c
        }),
{
    let c = VsockConn { host_port: h.dst_port, guest_port: h.src_port };
    let l = Link {
        peer_buf_alloc: h.buf_alloc,
        peer_fwd_cnt: h.fwd_cnt,
        ..Link::fresh(VsockState::Connected)
    };
    law_table_put(s.conns, c.key(), l, 0);
    let waiting = if keyed(s.backlog, h.dst_port as u64) {
        value(s.backlog, h.dst_port as u64)
    } else {
        Seq::empty()
    };
    law_table_put(s.backlog, h.dst_port as u64, waiting.push(c), 0);
}

/// Data of the guest is read by the host in the order in which it came.
pub proof fn law_received_bytes_keep_their_order(s: Vsock, h: Hdr, payload: Seq<u8>, n: nat)
    requires
        ordered(s.conns),
        h.src_cid == s.guest_cid && h.dst_cid == HOST_CID,
        h.ty == TYPE_STREAM && h.op == OP_RW,
        s.has_conn(VsockConn { host_port: h.dst_port, guest_port: h.src_port }),
        s.link(VsockConn { host_port: h.dst_port, guest_port: h.src_port }).open(),
        n <= s.link(VsockConn { host_port: h.dst_port, guest_port: h.src_port }).rx_buf.len()
            + payload.len(),
    ensures
        ({
            let c = VsockConn { host_port: h.dst_port, guest_port: h.src_port };
            let t = s.received(h, payload);
            &&& t.link(c).rx_buf == s.link(c).rx_buf + payload
            &&& t.link(c).rx_buf.take(n as int) + t.link(c).consumed(n).rx_buf
                == s.link(c).rx_buf + payload
        }),
{
    let c = VsockConn { host_port: h.dst_port, guest_port: h.src_port };
    let k = Link { peer_buf_alloc: h.buf_alloc, peer_fwd_cnt: h.fwd_cnt, ..s.link(c) };
    let l = Link {
        rx_cnt: k.rx_cnt.wrapping_add(payload.len() as u32),
        rx_buf: k.rx_buf + payload,
        ..k
    };
    law_table_put(s.conns, c.key(), l, 0);
    let all = s.link(c).rx_buf + payload;
    assert(all.take(n as int) + all.skip(n as int) =~= all);
}

/// A CREDIT_REQUEST on an open connection is owed a CREDIT_UPDATE. It leaves when
/// the connection's turn comes, after its data and its SHUTDOWN, and announces the
/// host's buffer and the bytes consumed.
pub proof fn law_credit_request_is_answered(
    s: Vsock,
    h: Hdr,
    payload: Seq<u8>,
    i: nat,
    room: nat,
)
    requires
        ordered(s.conns),
        h.src_cid == s.guest_cid && h.dst_cid == HOST_CID,
        h.ty == TYPE_STREAM && h.op == OP_CREDIT_REQUEST,
        s.has_conn(VsockConn { host_port: h.dst_port, guest_port: h.src_port }),
        s.link(VsockConn { host_port: h.dst_port, guest_port: h.src_port }).open(),
    ensures
        ({
            let c = VsockConn { host_port: h.dst_port, guest_port: h.src_port };
            let t = s.received(h, payload);
            let k = t.link(c);
            &&& k.open() && k.credit_update
            &&& i < t.conns.len() && t.conns[i as int].1 == k && k.tx_buf.len() == 0
                && k.shutdown_pending == 0 ==> {
                let (u, sent) = t.next_from(i, room);
                &&& sent matches Some((o, data))
                &&& data.len() == 0
                &&& o.op == OP_CREDIT_UPDATE && o.buf_alloc == HOST_BUF_ALLOC
                &&& o.fwd_cnt == k.fwd_cnt
                &&& !u.conns[i as int].1.credit_update
            }
        }),
{
    let c = VsockConn { host_port: h.dst_port, guest_port: h.src_port };
    let k = Link { peer_buf_alloc: h.buf_alloc, peer_fwd_cnt: h.fwd_cnt, ..s.link(c) };
    law_table_put(s.conns, c.key(), Link { credit_update: true, ..k }, 0);
}

/// A full close by the guest is answered with RST. The connection is closed; what
/// was received can still be read.
pub proof fn law_full_close_is_answered(s: Vsock, h: Hdr, payload: Seq<u8>)
    requires
        ordered(s.conns),
        h.src_cid == s.guest_cid && h.dst_cid == HOST_CID,
        h.ty == TYPE_STREAM && h.op == OP_SHUTDOWN,
        h.flags & SHUTDOWN_BOTH == SHUTDOWN_BOTH,
        s.has_conn(VsockConn { host_port: h.dst_port, guest_port: h.src_port }),
        s.link(VsockConn { host_port: h.dst_port, guest_port: h.src_port }).open(),
    ensures
        ({
            let c = VsockConn { host_port: h.dst_port, guest_port: h.src_port };
            let t = s.received(h, payload);
            &&& t.link(c).state == VsockState::Closed
            &&& t.link(c).rx_buf == s.link(c).rx_buf
            &&& t.control.last().op == OP_RST
        }),
{
    let c = VsockConn { host_port: h.dst_port, guest_port: h.src_port };
    let k = Link { peer_buf_alloc: h.buf_alloc, peer_fwd_cnt: h.fwd_cnt, ..s.link(c) };
    let l = Link {
        peer_eof: k.peer_eof || h.flags & SHUTDOWN_SEND != 0,
        ..k
    };
    law_table_put(s.conns, c.key(), l, 0);
    let s1 = s.with_link(c, l);
    law_table_put(s1.conns, c.key(), l.closed(), 0);
}

/// A reset of the transport closes every connection; what was received can still
/// be read.
pub proof fn law_transport_reset_closes_all(s: Vsock)
    ensures
        s.lost().conns.len() == s.conns.len(),
        forall|i: int|
            0 <= i < s.conns.len() ==> {
                &&& (#[trigger] s.lost().conns[i]).0 == s.conns[i].0
                &&& s.lost().conns[i].1.state == VsockState::Closed
                &&& s.lost().conns[i].1.rx_buf == s.conns[i].1.rx_buf
            },
        s.lost().control.len() == 0,
{
}

/// A header reads back from its bytes, and the bytes from the header.
pub proof fn law_header_reads_back(h: Hdr, b: Seq<u8>)
    requires
        b.len() == 44,
    ensures
        h.bytes().len() == 44,
        Hdr::of(h.bytes()) == h,
        Hdr::of(b).bytes() == b,
{
    let e = h.bytes();
    let g = Hdr::of(b);
    assert(e.subrange(0, 8) =~= le64_bytes(h.src_cid));
    lemma_le64_in(e, 0, h.src_cid);
    lemma_le64_in(b, 0, g.src_cid);
    assert(e.subrange(8, 16) =~= le64_bytes(h.dst_cid));
    lemma_le64_in(e, 8, h.dst_cid);
    lemma_le64_in(b, 8, g.dst_cid);
    assert(e.subrange(16, 20) =~= le32_bytes(h.src_port));
    lemma_le32_in(e, 16, h.src_port);
    lemma_le32_in(b, 16, g.src_port);
    assert(e.subrange(20, 24) =~= le32_bytes(h.dst_port));
    lemma_le32_in(e, 20, h.dst_port);
    lemma_le32_in(b, 20, g.dst_port);
    assert(e.subrange(24, 28) =~= le32_bytes(h.len));
    lemma_le32_in(e, 24, h.len);
    lemma_le32_in(b, 24, g.len);
    assert(e.subrange(28, 30) =~= le16_bytes(h.ty));
    lemma_le16_in(e, 28, h.ty);
    lemma_le16_in(b, 28, g.ty);
    assert(e.subrange(30, 32) =~= le16_bytes(h.op));
    lemma_le16_in(e, 30, h.op);
    lemma_le16_in(b, 30, g.op);
    assert(e.subrange(32, 36) =~= le32_bytes(h.flags));
    lemma_le32_in(e, 32, h.flags);
    lemma_le32_in(b, 32, g.flags);
    assert(e.subrange(36, 40) =~= le32_bytes(h.buf_alloc));
    lemma_le32_in(e, 36, h.buf_alloc);
    lemma_le32_in(b, 36, g.buf_alloc);
    assert(e.subrange(40, 44) =~= le32_bytes(h.fwd_cnt));
    lemma_le32_in(e, 40, h.fwd_cnt);
    lemma_le32_in(b, 40, g.fwd_cnt);
    assert(g.bytes() =~= b.subrange(0, 8) + b.subrange(8, 16) + b.subrange(16, 20) + b.subrange(20, 24) + b.subrange(24, 28) + b.subrange(28, 30) + b.subrange(30, 32) + b.subrange(32, 36) + b.subrange(36, 40) + b.subrange(40, 44));
    assert(g.bytes() =~= b);
}

// ---- Order ----------------------------------------------------------------------

/// Every key is a port.
pub open spec fn port_keys<M>(t: Seq<(u64, M)>) -> bool {
    forall|i: int| 0 <= i < t.len() ==> (#[trigger] t[i]).0 <= u32::MAX
}

/// Every port in the table listens.
pub open spec fn all_listen(t: Seq<(u64, bool)>) -> bool {
    forall|i: int| 0 <= i < t.len() ==> (#[trigger] t[i]).1
}

/// The tables stand in order, and their keys are ports.
pub open spec fn tables_in_order(s: Vsock) -> bool {
    &&& ordered(s.listening) && port_keys(s.listening) && all_listen(s.listening)
    &&& ordered(s.conns)
    &&& ordered(s.backlog) && port_keys(s.backlog)
}

/// The tables stand in order, and the next port is one that the host connects
/// from.
pub open spec fn vsock_in_order(s: Vsock) -> bool {
    &&& tables_in_order(s)
    &&& s.next_port >= FIRST_HOST_PORT
}

proof fn lemma_put_ports<M>(t: Seq<(u64, M)>, k: u64, m: M)
    requires
        ordered(t),
        port_keys(t),
        k <= u32::MAX,
    ensures
        ordered(put(t, k, m)),
        port_keys(put(t, k, m)),
{
    law_table_put(t, k, m, k);
    lemma_rank(t, k);
    let p = put(t, k, m);
    let r = rank(t, k);
    assert forall|i: int| 0 <= i < p.len() implies (#[trigger] p[i]).0 <= u32::MAX by {
        if i < r {
            assert(p[i] == t[i]);
        } else if i > r {
            if keyed(t, k) {
                assert(p[i] == t[i]);
            } else {
                assert(p[i] == t[i - 1]);
            }
        }
    }
}

proof fn lemma_put_listens(t: Seq<(u64, bool)>, k: u64)
    requires
        ordered(t),
        all_listen(t),
    ensures
        all_listen(put(t, k, true)),
{
    lemma_rank(t, k);
    let p = put(t, k, true);
    let r = rank(t, k);
    assert forall|i: int| 0 <= i < p.len() implies (#[trigger] p[i]).1 by {
        if i < r {
            assert(p[i] == t[i]);
        } else if i > r {
            if keyed(t, k) {
                assert(p[i] == t[i]);
            } else {
                assert(p[i] == t[i - 1]);
            }
        }
    }
}

proof fn lemma_without_ports<M>(t: Seq<(u64, M)>, k: u64)
    requires
        ordered(t),
        port_keys(t),
    ensures
        ordered(without(t, k)),
        port_keys(without(t, k)),
{
    law_table_without(t, k, k);
    lemma_rank(t, k);
    let p = without(t, k);
    let r = rank(t, k);
    assert forall|i: int| 0 <= i < p.len() implies (#[trigger] p[i]).0 <= u32::MAX by {
        if keyed(t, k) && i >= r {
            assert(p[i] == t[i + 1]);
        } else {
            assert(p[i] == t[i]);
        }
    }
}

proof fn lemma_without_listens(t: Seq<(u64, bool)>, k: u64)
    requires
        ordered(t),
        all_listen(t),
    ensures
        all_listen(without(t, k)),
{
    lemma_rank(t, k);
    let p = without(t, k);
    let r = rank(t, k);
    assert forall|i: int| 0 <= i < p.len() implies (#[trigger] p[i]).1 by {
        if keyed(t, k) && i >= r {
            assert(p[i] == t[i + 1]);
        } else {
            assert(p[i] == t[i]);
        }
    }
}

proof fn lemma_with_link(s: Vsock, c: VsockConn, l: Link)
    requires
        vsock_in_order(s),
    ensures
        vsock_in_order(s.with_link(c, l)),
{
    law_table_put(s.conns, c.key(), l, 0);
}

proof fn lemma_broken(s: Vsock, c: VsockConn)
    requires
        vsock_in_order(s),
    ensures
        vsock_in_order(s.broken(c)),
{
    if s.has_conn(c) {
        lemma_with_link(s, c, s.link(c).closed());
    }
}

proof fn lemma_broken_all(s: Vsock, cs: Seq<VsockConn>)
    requires
        vsock_in_order(s),
    ensures
        vsock_in_order(s.broken_all(cs)),
    decreases cs.len(),
{
    if cs.len() > 0 {
        lemma_broken_all(s, cs.drop_last());
        lemma_broken(s.broken_all(cs.drop_last()), cs.last());
    }
}

proof fn lemma_lost(s: Vsock)
    requires
        vsock_in_order(s),
    ensures
        vsock_in_order(s.lost()),
{
    let t = s.lost().conns;
    assert forall|i: int, j: int| 0 <= i < j < t.len() implies (#[trigger] t[i]).0 < (#[trigger] t[j]).0 by {
        assert(t[i].0 == s.conns[i].0 && t[j].0 == s.conns[j].0);
    }
}

/// Packets of the guest keep the tables in order.
pub proof fn law_received_keeps_order(s: Vsock, h: Hdr, payload: Seq<u8>)
    requires
        vsock_in_order(s),
    ensures
        vsock_in_order(s.received(h, payload)),
{
    let c = VsockConn { host_port: h.dst_port, guest_port: h.src_port };
    let k = Link { peer_buf_alloc: h.buf_alloc, peer_fwd_cnt: h.fwd_cnt, ..s.link(c) };
    lemma_with_link(s, c, k);
    lemma_broken(s.with_link(c, k), c);
    lemma_with_link(s, c, Link { state: VsockState::Closed, ..k });
    lemma_with_link(s, c, Link { state: VsockState::Closing, ..k });
    lemma_with_link(s, c, Link { state: VsockState::Connected, ..k });
    lemma_with_link(
        s,
        c,
        Link {
            rx_cnt: k.rx_cnt.wrapping_add(payload.len() as u32),
            rx_buf: k.rx_buf + payload,
            ..k
        },
    );
    lemma_with_link(s, c, Link { credit_update: true, ..k });
    let eof = Link {
        peer_eof: k.peer_eof || h.flags & SHUTDOWN_SEND != 0,
        ..k
    };
    lemma_with_link(s, c, eof);
    lemma_broken(s.with_link(c, eof), c);
    let fresh = Link {
        peer_buf_alloc: h.buf_alloc,
        peer_fwd_cnt: h.fwd_cnt,
        ..Link::fresh(VsockState::Connected)
    };
    lemma_with_link(s, c, fresh);
    let waiting = if keyed(s.backlog, h.dst_port as u64) {
        value(s.backlog, h.dst_port as u64)
    } else {
        Seq::empty()
    };
    lemma_put_ports(s.backlog, h.dst_port as u64, waiting.push(c));
}

proof fn lemma_next_from(s: Vsock, i: nat, room: nat)
    requires
        vsock_in_order(s),
    ensures
        vsock_in_order(s.next_from(i, room).0),
    decreases s.conns.len() - i,
{
    if i < s.conns.len() {
        let k = s.conns[i as int].1;
        if k.open() && k.tx_buf.len() > 0 && k.credit() > 0 && room > 0 {
        } else if k.open() && k.tx_buf.len() == 0 && k.shutdown_pending != 0 {
        } else if k.credit_update && k.open() {
        } else {
            lemma_next_from(s, i + 1, room);
        }
    }
}

/// Packets for the guest keep the tables in order.
pub proof fn law_next_packet_keeps_order(s: Vsock, room: nat)
    requires
        vsock_in_order(s),
    ensures
        vsock_in_order(s.next_packet(room).0),
        forall|h: Hdr| vsock_in_order(#[trigger] s.next_packet(room).0.announced(h)),
{
    lemma_next_from(s, 0, room);
    let t = s.next_packet(room).0;
    assert forall|h: Hdr| vsock_in_order(#[trigger] t.announced(h)) by {
        let c = VsockConn { host_port: h.src_port, guest_port: h.dst_port };
        lemma_with_link(t, c, Link { last_fwd_sent: h.fwd_cnt, ..t.link(c) });
    }
}

proof fn lemma_took(s: Vsock, q: Virtqueue, m: Mem, fuel: nat)
    requires
        vsock_in_order(s),
    ensures
        vsock_in_order(s.took(q, m, fuel).0),
    decreases fuel,
{
    if fuel > 0 {
        let (q1, m1, next) = q.popped(m);
        if let Ok(Some(c)) = next {
            if let Ok(b) = gathered(m1, c.readable, 0, 44) {
                let h = Hdr::of(b + zeros((44 - b.len()) as nat));
                if let Ok(payload) = gathered(m1, c.readable, 44, h.len as int) {
                    law_received_keeps_order(s, h, payload);
                }
                if let Ok(s2) = s.chain_taken(c, m1, b) {
                    let (q3, m3, r3) = q1.returned(m1, c.head, 0);
                    assert(vsock_in_order(s2));
                    lemma_took(s2, q3, m3, (fuel - 1) as nat);
                }
            }
        }
    }
}

proof fn lemma_gave(s: Vsock, q: Virtqueue, m: Mem, fuel: nat)
    requires
        vsock_in_order(s),
    ensures
        vsock_in_order(s.gave(q, m, fuel).0),
    decreases fuel,
{
    if fuel > 0 {
        let (q1, m1, next) = q.popped(m);
        if let Ok(Some(c)) = next {
            let room = min_len((total(c.writable) - 44) as nat, 65_536);
            law_next_packet_keeps_order(s, room);
            let (s2, packet) = s.next_packet(room);
            if let Some((h, data)) = packet {
                let s3 = s2.announced(h);
                let (m2, r2) = scattered(
                    m1,
                    c.writable,
                    0,
                    h.bytes() + data,
                );
                if let Ok(n) = r2 {
                    let (q3, m3, r3) = q1.returned(m2, c.head, n as u32);
                    lemma_gave(s3, q3, m3, (fuel - 1) as nat);
                }
            }
        }
    }
}

/// A service keeps the device in order.
pub proof fn law_service_keeps_order(s: Vsock, w: Work)
    requires
        vsock_in_order(s),
    ensures
        vsock_in_order(s.served(w).0),
{
    let limit = SERVICE_LIMIT as nat;
    let (s1, eq, m1, r1) = s.signalled(w.queues[2], w.mem);
    let w1 = Work { queues: w.queues.update(2, eq), mem: m1, ..w };
    lemma_took(s1, w1.queues[1], m1, limit);
    let (s2, tq, m2, r2) = s1.took(w1.queues[1], m1, limit);
    let w2 = Work { queues: w1.queues.update(1, tq), mem: m2, ..w1 };
    lemma_gave(s2, w2.queues[0], m2, limit);
}

/// What the host does keeps the device in order: listening and no longer,
/// accepting, connecting, any change of a connection, closing, forgetting, and a
/// reset of the transport.
pub proof fn law_host_keeps_order(s: Vsock, c: VsockConn, port: u32, l: Link, cs: Seq<VsockConn>)
    requires
        vsock_in_order(s),
    ensures
        vsock_in_order(Vsock { listening: put(s.listening, port as u64, true), ..s }),
        vsock_in_order(
            (Vsock {
                listening: without(s.listening, port as u64),
                backlog: without(s.backlog, port as u64),
                ..s
            }).broken_all(cs),
        ),
        vsock_in_order(Vsock { backlog: put(s.backlog, port as u64, cs), ..s }),
        s.is_next_port(port) ==> vsock_in_order(s.connecting(port, c.guest_port)),
        vsock_in_order(s.with_link(c, l)),
        vsock_in_order(s.broken(c)),
        vsock_in_order(
            (Vsock {
                conns: without(s.broken(c).conns, c.key()),
                backlog: s.broken(c).backlog.map_values(
                    |e: (u64, Seq<VsockConn>)| (e.0, dropped_from(e.1, c)),
                ),
                ..s.broken(c)
            }),
        ),
        vsock_in_order(s.lost()),
{
    lemma_put_ports(s.listening, port as u64, true);
    lemma_put_listens(s.listening, port as u64);
    lemma_without_ports(s.listening, port as u64);
    lemma_without_listens(s.listening, port as u64);
    lemma_without_ports(s.backlog, port as u64);
    lemma_broken_all(
        Vsock {
            listening: without(s.listening, port as u64),
            backlog: without(s.backlog, port as u64),
            ..s
        },
        cs,
    );
    lemma_put_ports(s.backlog, port as u64, cs);
    let from = VsockConn { host_port: port, guest_port: c.guest_port };
    lemma_with_link(s, from, Link::fresh(VsockState::Connecting));
    lemma_with_link(s, c, l);
    lemma_broken(s, c);
    let b = s.broken(c);
    law_table_without(b.conns, c.key(), 0);
    let t = b.backlog.map_values(|e: (u64, Seq<VsockConn>)| (e.0, dropped_from(e.1, c)));
    assert forall|i: int, j: int| 0 <= i < j < t.len() implies (#[trigger] t[i]).0 < (#[trigger] t[j]).0 by {
        assert(t[i].0 == b.backlog[i].0 && t[j].0 == b.backlog[j].0);
    }
    assert forall|i: int| 0 <= i < t.len() implies (#[trigger] t[i]).0 <= u32::MAX by {
        assert(t[i].0 == b.backlog[i].0);
    }
    lemma_lost(s);
}

} // verus!
