//! What a connection sends, when, and what passes between it and the upstream.
use vstd::prelude::*;
use crate::net::addr::{ConnId, Flow, VirtualTime};
use crate::net::events::{CloseReason, Direction, Event, Fact};
use crate::net::segment_laws::is_over;
use crate::net::tcp::{lemma_advance, wadd, wsub, Conn, RttSample, Seg, State, Tcb, Verdict, World, MAX_RETRIES, RTO_INITIAL, RTO_MAX, RTO_MIN, RX_CAPACITY, TX_CAPACITY};
use crate::net::upstream::{TcpRead, TcpStatus, Upstream};
use crate::net::wire::{TcpHeader, TCP_ACK, TCP_FIN, TCP_PSH, TCP_RST, TCP_SYN};

verus! {

/// States in which data and FIN still leave.
pub open spec fn may_send(s: State) -> bool {
    s == State::Established || s == State::CloseWait || s == State::FinWait1 || s == State::LastAck
        || s == State::Closing
}

/// What is under way: sent and not acknowledged.
pub open spec fn under_way(t: Tcb) -> int {
    wsub(t.snd_nxt, t.snd_una) as int
}

/// How far into the buffer the connection may send: to the end of the data, of the
/// guest's window and of the congestion window.
pub open spec fn reach(c: Conn) -> int {
    let wnd = if c.t.snd_wnd <= c.t.cwnd { c.t.snd_wnd as int } else { c.t.cwnd as int };
    if c.tx.len() <= wnd { c.tx.len() as int } else { wnd }
}

/// The segments of `out` from `from` on are data of the buffer, one after another:
/// each carries the bytes that its number stands for, at most one full segment of
/// them, and acknowledges what was received.
pub open spec fn are_data(c: Conn, out: Seq<Seg>, from: int) -> bool {
    &&& forall|i: int|
        from <= i < out.len() ==> {
            let g = #[trigger] out[i];
            let off = wsub(g.seq, c.t.snd_una) as int;
            &&& 0 < g.payload.len() <= c.t.mss
            &&& off + g.payload.len() <= c.tx.len()
            &&& g.payload == c.tx.subrange(off, off + g.payload.len())
            &&& g.ack == c.t.rcv_nxt && g.window + c.rx.len() == RX_CAPACITY
            &&& g.flags == if off + g.payload.len() == c.tx.len() {
                TCP_ACK | TCP_PSH
            } else {
                TCP_ACK
            }
        }
    &&& forall|i: int|
        from <= i && i + 1 < out.len() ==> (#[trigger] out[i + 1]).seq == wadd(
            out[i].seq,
            out[i].payload.len() as u32,
        )
}

/// Everything but what sending changes.
spec fn same_buffers(c: Conn, d: Conn) -> bool {
    &&& d.tx == c.tx && d.rx == c.rx
    &&& d.t.snd_una == c.t.snd_una && d.t.snd_wnd == c.t.snd_wnd && d.t.cwnd == c.t.cwnd
    &&& d.t.mss == c.t.mss && d.t.rcv_nxt == c.t.rcv_nxt && d.t.state == c.t.state
    &&& d.t.tx_eof == c.t.tx_eof && d.t.fin_seq == c.t.fin_seq
}

proof fn lemma_send_data<M>(c: Conn, w: World<M>, now: VirtualTime, base: Conn, from: int)
    requires
        c.wf(),
        same_buffers(base, c),
        0 <= from <= w.out.len(),
        are_data(base, w.out, from),
        from < w.out.len() ==> c.t.snd_nxt == wadd(
            w.out.last().seq,
            w.out.last().payload.len() as u32,
        ),
    ensures
        ({
            let (d, w2) = c.send_data(w, now);
            &&& same_buffers(base, d)
            &&& under_way(d.t) == if under_way(c.t) >= reach(c) { under_way(c.t) } else { reach(c) }
            &&& w.out.is_prefix_of(w2.out)
            &&& w2.log == w.log && w2.up == w.up
            &&& are_data(base, w2.out, from)
            &&& under_way(c.t) >= reach(c) ==> w2.out == w.out && d == c
            &&& under_way(c.t) < reach(c) ==> w2.out.len() > w.out.len() && w2.out[w.out.len() as int].seq
                == c.t.snd_nxt && !d.t.ack_pending
        }),
    decreases c.tx.len() - c.t.in_flight(),
{
    if c.next_len() > 0 {
        lemma_advance(c.t.snd_una, c.t.snd_nxt, c.next_len() as u32);
        let (d, w2) = c.send_next(w, now);
        let g = w2.out.last();
        let off = under_way(c.t);
        assert(w2.out == w.out.push(g));
        assert((0x10u8 | 0x08u8) & 0x02u8 == 0 && 0x10u8 & 0x02u8 == 0) by (bit_vector);
        assert(g.payload =~= c.tx.subrange(off, off + c.next_len()));
        assert(are_data(base, w2.out, from)) by {
            assert forall|i: int| from <= i && i + 1 < w2.out.len() implies (
            #[trigger] w2.out[i + 1]).seq == wadd(
                w2.out[i].seq,
                w2.out[i].payload.len() as u32,
            ) by {
                if i + 1 == w.out.len() {
                    assert(w2.out[i] == w.out.last());
                } else {
                    assert(w2.out[i + 1] == w.out[i + 1] && w2.out[i] == w.out[i]);
                }
            }
        }
        lemma_send_data(d, w2, now, base, from);
        let (e, w3) = d.send_data(w2, now);
        assert(w3.out[w.out.len() as int] == w2.out[w.out.len() as int]);
    }
}

/// Everything that may leave leaves at once: up to the end of the data, of the
/// guest's window and of the congestion window, and not a byte more. It leaves in
/// full segments, in order and without holes, from the first byte that was not
/// sent, and each byte under the number that stands for it. If nothing may leave,
/// nothing does.
pub proof fn law_all_that_may_leave_leaves<M>(c: Conn, w: World<M>, now: VirtualTime)
    requires
        c.wf(),
        may_send(c.t.state),
        !c.t.tx_eof,
    ensures
        ({
            let (d, w2) = c.transmit(w, now);
            let n = w.out.len() as int;
            &&& w.out.is_prefix_of(w2.out)
            &&& w2.log == w.log && w2.up == w.up
            &&& are_data(c, w2.out, n)
            &&& d.tx == c.tx && d.rx == c.rx && d.t.snd_una == c.t.snd_una && d.t.state == c.t.state
            &&& under_way(d.t) == if under_way(c.t) >= reach(c) { under_way(c.t) } else { reach(c) }
            &&& under_way(c.t) >= reach(c) ==> w2.out == w.out
            &&& under_way(c.t) < reach(c) ==> w2.out.len() > n && w2.out[n].seq == c.t.snd_nxt
        }),
{
    lemma_send_data(c, w, now, c, w.out.len() as int);
}

/// Once the upstream is done and all its data is sent, a FIN leaves, once, after
/// the last byte: the connection closes its side (FIN-WAIT-1, or LAST-ACK if the
/// guest closed first). If it was lost it leaves again under the same number.
pub proof fn law_fin_leaves_after_the_data<M>(c: Conn, w: World<M>, now: VirtualTime)
    requires
        c.wf(),
        c.t.tx_eof,
        under_way(c.t) == c.tx.len(),
        (c.t.fin_seq is None && (c.t.state == State::Established || c.t.state == State::CloseWait))
            || (c.t.fin_seq == Some(c.t.snd_nxt) && (c.t.state == State::FinWait1 || c.t.state
            == State::LastAck || c.t.state == State::Closing)),
    ensures
        ({
            let (d, w2) = c.transmit(w, now);
            let g = w2.out.last();
            &&& w2.out.len() == w.out.len() + 1 && w2.out.drop_last() == w.out
            &&& g.flags == TCP_FIN | TCP_ACK && g.seq == c.t.snd_nxt && g.ack == c.t.rcv_nxt
            &&& g.payload.len() == 0
            &&& d.t.fin_seq == Some(c.t.snd_nxt)
            &&& d.t.snd_nxt == wadd(c.t.snd_nxt, 1)
            &&& d.t.rtx_deadline is Some
            &&& d.t.state == match c.t.state {
                State::Established => State::FinWait1,
                State::CloseWait => State::LastAck,
                s => s,
            }
            &&& d.tx == c.tx && d.rx == c.rx
        }),
{
    lemma_send_data(c, w, now, c, w.out.len() as int);
    assert(c.send_data(w, now) == (c, w));
    assert(c.transmit(w, now).1.out.drop_last() =~= w.out);
}

/// Before the data is all sent, no FIN leaves.
pub proof fn law_no_fin_before_the_data<M>(c: Conn, w: World<M>, now: VirtualTime)
    requires
        c.wf(),
        may_send(c.t.state),
        under_way(c.t) < c.tx.len(),
        reach(c) < c.tx.len(),
    ensures
        ({
            let (d, w2) = c.transmit(w, now);
            &&& are_data(c, w2.out, w.out.len() as int)
            &&& d.t.fin_seq == c.t.fin_seq && d.t.state == c.t.state
        }),
{
    lemma_send_data(c, w, now, c, w.out.len() as int);
}

/// An acknowledgement that is owed, when there is no data to carry it, leaves on
/// its own: an empty segment with the next number, what was received, and the room
/// that is left. If none is owed and nothing is to be sent, nothing leaves.
pub proof fn law_owed_ack_leaves_alone<M>(c: Conn, w: World<M>, now: VirtualTime)
    requires
        c.wf(),
        c.t.state != State::Closed,
        under_way(c.t) >= reach(c) || !may_send(c.t.state),
        !c.t.tx_eof,
    ensures
        ({
            let (d, w2) = c.flush(w, now);
            let g = w2.out.last();
            &&& c.t.ack_pending ==> {
                &&& w2.out.len() == w.out.len() + 1 && w2.out.drop_last() == w.out
                &&& g.seq == c.t.snd_nxt && g.ack == c.t.rcv_nxt && g.flags == TCP_ACK
                &&& g.payload.len() == 0 && g.window + c.rx.len() == RX_CAPACITY
                &&& !d.t.ack_pending
            }
            &&& !c.t.ack_pending ==> w2.out == w.out
        }),
{
    lemma_send_data(c, w, now, c, w.out.len() as int);
    if c.t.ack_pending {
        assert(c.flush(w, now).1.out.drop_last() =~= w.out);
    }
}

/// What is received is offered to the upstream as it is; what it takes leaves the
/// front of the buffer, and the rest stays. When the guest has closed its side and
/// all is taken, the upstream is told, once.
pub proof fn law_upstream_takes_the_data<U: Upstream>(c: Conn, w: World<U::Model>, now: VirtualTime)
    ensures
        ({
            let (d, w2) = c.deliver::<U>(w, now);
            let says = U::write_count(w.up, now, c.t.id, c.rx) as int;
            let n = if c.rx.len() == 0 {
                0
            } else if says <= c.rx.len() {
                says
            } else {
                c.rx.len() as int
            };
            let wrote = if c.rx.len() == 0 {
                w.up
            } else {
                U::write_next(w.up, now, c.t.id, c.rx)
            };
            let tell = n == c.rx.len() && c.t.rx_fin && !c.t.shutdown_done;
            &&& d.rx == c.rx.skip(n)
            &&& d.tx == c.tx
            &&& w2.up == if tell { U::shut(wrote, now, c.t.id) } else { wrote }
            &&& d.t == (Tcb { shutdown_done: c.t.shutdown_done || tell, ..c.t })
            &&& w2.log == w.log && w2.out == w.out
        }),
{
    assert(c.rx.skip(0) =~= c.rx);
}

/// What the upstream gives joins the transmit buffer at its end, is counted and
/// logged. The end of its stream is noted. If it breaks the connection, the guest
/// gets an RST and the connection is over. If it has nothing, nothing happens.
pub proof fn law_upstream_gives_data<U: Upstream>(c: Conn, w: World<U::Model>, now: VirtualTime)
    requires
        c.t.state != State::Closed,
        c.tx.len() < TX_CAPACITY,
    ensures
        ({
            let id = c.t.id;
            let left = TX_CAPACITY - c.tx.len();
            let room = (if left <= 16_384 { left } else { 16_384 }) as nat;
            let (d, w2, v) = c.fetch::<U>(w, now);
            let read = World { up: U::read_next(w.up, now, id, room), ..w };
            match U::read_result(w.up, now, id, room) {
                TcpRead::WouldBlock => d == c && w2 == read && v == Verdict::GoOn,
                TcpRead::Eof => d == (Conn { t: Tcb { tx_eof: true, ..c.t }, ..c }) && w2 == read
                    && v == Verdict::GoOn,
                TcpRead::Reset => {
                    let g = w2.out.last();
                    &&& v == Verdict::Stop && d.t.state == State::Closed
                    &&& d.t.close_reason == Some(CloseReason::RemoteReset)
                    &&& w2.up == U::closed(read.up, now, id, true)
                    &&& w2.out.len() == w.out.len() + 1
                    &&& g.seq == c.t.snd_max && g.flags == TCP_RST | TCP_ACK && g.ack
                        == c.t.rcv_nxt
                },
                TcpRead::Data(n) => {
                    let data = U::read_data(w.up, now, id, room);
                    n > 0 && data.len() > 0 ==> {
                        let more = Conn {
                            t: Tcb {
                                bytes_to_guest: ((c.t.bytes_to_guest + data.len())
                                    % 0x1_0000_0000_0000_0000) as u64,
                                ..c.t
                            },
                            tx: c.tx + data,
                            rx: c.rx,
                        };
                        let log = w.log.push(
                            Event {
                                at: now,
                                kind: Fact::TcpData { id, dir: Direction::ToGuest, len: n },
                            },
                        );
                        (d, w2, v) == more.fetch::<U>(World { log, ..read }, now)
                    }
                },
            }
        }),
{
}

/// The SYN-ACK leaves as soon as the upstream has opened its side: with the
/// connection's own first number, an acknowledgement of the guest's SYN, and the
/// segment size; it is repeated if it is not answered.
pub proof fn law_syn_ack_leaves_when_opened<U: Upstream>(
    c: Conn,
    w: World<U::Model>,
    now: VirtualTime,
)
    requires
        c.wf(),
        c.t.state == State::Connecting,
        U::status(w.up, now, c.t.id) == TcpStatus::Connected,
    ensures
        ({
            let w1 = World { up: U::status_next(w.up, now, c.t.id), ..w };
            let (b, w2, v) = c.opening::<U>(w1, now, TcpStatus::Connected);
            let g = w2.out.last();
            &&& v == Verdict::GoOn
            &&& b.t.state == State::SynReceived
            &&& b.t.snd_nxt == wadd(c.t.iss, 1) && b.t.snd_max == wadd(c.t.iss, 1)
            &&& c.t.rtx_deadline is None ==> b.t.rtx_deadline == Some(now.later(c.t.rto))
            &&& w2.out.len() == w.out.len() + 1 && w2.out.drop_last() == w.out
            &&& g.seq == c.t.iss && g.ack == c.t.rcv_nxt && g.flags == TCP_SYN | TCP_ACK
            &&& g.mss == Some(c.t.local_mss) && g.payload.len() == 0
            &&& c.process::<U>(w, now) == b.exchange::<U>(w2, now)
        }),
{
    let w1 = World { up: U::status_next(w.up, now, c.t.id), ..w };
    assert((0x02u8 | 0x10u8) & 0x02u8 != 0) by (bit_vector);
    assert(c.opening::<U>(w1, now, TcpStatus::Connected).1.out.drop_last() =~= w.out);
}

/// A connection that the upstream leaves waiting past the deadline is given up: an
/// RST that acknowledges the SYN, and the end for want of an answer. Before, it
/// waits.
pub proof fn law_opening_times_out<U: Upstream>(c: Conn, w: World<U::Model>, now: VirtualTime)
    requires
        c.t.state == State::Connecting,
        U::status(w.up, now, c.t.id) == TcpStatus::Pending,
    ensures
        ({
            let asked = World { up: U::status_next(w.up, now, c.t.id), ..w };
            let (d, w2) = c.process::<U>(w, now);
            let g = w2.out.last();
            &&& now.0 < c.t.connect_deadline.0 ==> d == c && w2 == asked
            &&& now.0 >= c.t.connect_deadline.0 ==> {
                &&& is_over::<U>(c, asked, d, w2, now, CloseReason::Timeout, true)
                &&& w2.out.len() == w.out.len() + 1 && w2.out.drop_last() == w.out
                &&& g.seq == 0 && g.ack == c.t.rcv_nxt && g.flags == TCP_RST | TCP_ACK
            }
        }),
{
    if now.0 >= c.t.connect_deadline.0 {
        assert(c.process::<U>(w, now).1.out.drop_last() =~= w.out);
    }
}

/// What the timers do when they are due. TIME-WAIT ends in the orderly end. A
/// connection of the host that the guest never answered ends without a word. An
/// unanswered SYN or SYN-ACK leaves again, and the wait doubles.
pub proof fn law_timers<U: Upstream>(c: Conn, w: World<U::Model>, now: VirtualTime)
    requires
        c.wf(),
        c.t.state != State::Closed,
    ensures
        ({
            let (d, w2) = c.on_timer::<U>(w, now);
            let g = w2.out.last();
            let ends = c.t.state == State::TimeWait && now.0 >= c.t.time_wait_deadline.0;
            let gives_up = c.t.state == State::SynSent && now.0 >= c.t.connect_deadline.0;
            let due = c.t.rtx_deadline matches Some(at) && now.0 >= at.0;
            &&& ends ==> is_over::<U>(c, w, d, w2, now, CloseReason::Normal, false) && w2.out
                == w.out
            &&& gives_up ==> is_over::<U>(c, w, d, w2, now, CloseReason::Timeout, true) && w2.out
                == w.out
            &&& !ends && !gives_up && !due ==> d == c && w2 == w
            &&& (c.t.state == State::SynReceived || (c.t.state == State::SynSent && !gives_up)) && due
                && c.t.snd_una != c.t.snd_max && c.t.retries < MAX_RETRIES ==> {
                &&& d.t.state == c.t.state
                &&& d.t.retries == c.t.retries + 1
                &&& d.t.rto == if 2 * c.t.rto <= RTO_MAX { 2 * c.t.rto } else { RTO_MAX as int }
                &&& d.t.rtx_deadline == Some(now.later(d.t.rto))
                &&& w2.out.len() == w.out.len() + 1 && w2.out.drop_last() == w.out
                &&& g.seq == c.t.iss && g.payload.len() == 0
                &&& g.flags == if c.t.state == State::SynSent { TCP_SYN } else { TCP_SYN | TCP_ACK }
                &&& g.mss == Some(c.t.local_mss)
                &&& w2.log == w.log && w2.up == w.up
            }
        }),
{
    assert((0x02u8 | 0x10u8) & 0x02u8 != 0 && 0x02u8 & 0x02u8 != 0) by (bit_vector);
    let (d, w2) = c.on_timer::<U>(w, now);
    assert(w.out.push(w2.out.last()).drop_last() =~= w.out);
}

/// When the host breaks a connection the guest gets an RST, with the number after
/// everything that was sent, unless it never answered the SYN; the connection is
/// over.
pub proof fn law_abort_resets_the_guest<U: Upstream>(c: Conn, w: World<U::Model>, now: VirtualTime)
    requires
        c.t.state != State::Closed,
    ensures
        ({
            let (d, w2) = c.aborted::<U>(w, now);
            let g = w2.out.last();
            &&& is_over::<U>(c, w, d, w2, now, CloseReason::RemoteReset, true)
            &&& c.t.state == State::SynSent ==> w2.out == w.out
            &&& c.t.state != State::SynSent ==> {
                &&& w2.out.len() == w.out.len() + 1 && w2.out.drop_last() == w.out
                &&& g.seq == c.t.snd_max && g.ack == c.t.rcv_nxt && g.flags == TCP_RST | TCP_ACK
                &&& g.payload.len() == 0
            }
        }),
{
    if c.t.state != State::SynSent {
        assert(c.aborted::<U>(w, now).1.out.drop_last() =~= w.out);
    }
}

/// The connection asks to be woken for each of its timers, and for no other time:
/// the wait for the upstream, the retransmission (and, while the guest has not
/// answered, the end of the opening, whichever comes first), the end of TIME-WAIT.
pub proof fn law_deadline_is_that_of_the_timers(c: Conn)
    ensures
        c.t.state == State::Closed ==> c.next_deadline() is None,
        c.t.state == State::Connecting ==> c.next_deadline() == Some(c.t.connect_deadline),
        c.t.state == State::TimeWait ==> c.next_deadline() == Some(c.t.time_wait_deadline),
        c.t.state == State::SynSent ==> (c.next_deadline() matches Some(d) && {
            &&& d.0 <= c.t.connect_deadline.0
            &&& d == c.t.connect_deadline || Some(d) == c.t.rtx_deadline
            &&& c.t.rtx_deadline matches Some(r) ==> d.0 <= r.0
        }),
        c.t.state != State::Closed && c.t.state != State::Connecting && c.t.state
            != State::TimeWait && c.t.state != State::SynSent ==> c.next_deadline()
            == c.t.rtx_deadline,
{
}

/// The round trip is averaged as usual: the first measure is taken as it is, with
/// half of it as its spread; later ones move the average by an eighth and the
/// spread by a quarter of the difference. The timeout is the average and four times
/// the spread, within its bounds.
pub proof fn law_round_trip_is_averaged(t: Tcb, r: u64)
    requires
        r < 0x1000_0000_0000_0000,
        t.srtt matches Some(s) ==> s < 0x1000_0000_0000_0000,
        t.rttvar < 0x1000_0000_0000_0000,
    ensures
        ({
            let u = t.rtt_updated(r);
            &&& u.srtt is Some
            &&& t.srtt is None ==> u.srtt == Some(r) && u.rttvar == r / 2
            &&& t.srtt matches Some(s) ==> {
                let d = if s >= r { s - r } else { r - s };
                &&& 8 * u.srtt->0 <= 7 * s + r < 8 * u.srtt->0 + 8
                &&& 4 * u.rttvar <= 3 * t.rttvar + d < 4 * u.rttvar + 4
            }
            &&& u.rto == u.rto_base
            &&& RTO_MIN <= u.rto <= RTO_MAX
            &&& ({
                let raw = u.srtt->0 + 4 * u.rttvar;
                u.rttvar > 0 && RTO_MIN <= raw <= RTO_MAX ==> u.rto == raw
            })
        }),
{
    reveal(Tcb::rtt_updated);
}

/// The congestion window grows by what is acknowledged, at most a segment, below
/// the threshold, and above it by about a segment for each window, at least a byte;
/// it never shrinks by an acknowledgement.
pub proof fn law_congestion_window_grows(t: Tcb, n: nat)
    requires
        0 < t.mss <= 65_535,
        0 < t.cwnd <= 0x7000_0000,
        t.cwnd < t.ssthresh || t.mss <= t.cwnd,
        n <= u32::MAX,
    ensures
        ({
            let g = t.grown_cwnd(n);
            let by = g - t.cwnd;
            &&& t.cwnd < t.ssthresh ==> by == if n <= t.mss { n as int } else { t.mss as int }
            &&& t.cwnd >= t.ssthresh ==> {
                &&& by >= 1
                &&& by == 1 || by * t.cwnd <= t.mss * t.mss
                &&& (by + 1) * t.cwnd > t.mss * t.mss
            }
        }),
{
    reveal(Tcb::grown_cwnd);
    let m = t.mss as int;
    assert(0 < m * m <= 65_535 * 65_535) by (nonlinear_arith)
        requires
            0 < m <= 65_535,
    ;
    let q = (t.mss * t.mss) as u32 / t.cwnd;
    let c = t.cwnd as int;
    let sq = m * m;
    assert(q * c <= sq < (q + 1) * c) by (nonlinear_arith)
        requires
            c > 0,
            q == sq / c,
    ;
    if t.cwnd >= t.ssthresh {
        let k = q as int;
        assert(k <= m) by (nonlinear_arith)
            requires
                k * c <= m * m,
                0 < m <= c,
        ;
        if k < 1 {
            assert((1 + 1) * c > sq) by (nonlinear_arith)
                requires
                    sq < (k + 1) * c,
                    k == 0,
                    c > 0,
            ;
        }
        let by = t.grown_cwnd(n) - t.cwnd;
        assert(by == if k >= 1 { k } else { 1 });
        assert((by + 1) * c > sq);
        assert(by == 1 || by * c <= sq);
    }
}

/// A connection that a SYN starts: it expects the byte after the SYN, may send what
/// the SYN's window says, in segments of the smaller of the two sizes (at least 64
/// bytes, 536 if the SYN names none), ten of them at first, and waits for the
/// upstream until the deadline.
pub proof fn law_connection_starts_from_the_syn(
    id: ConnId,
    flow: Flow,
    syn: TcpHeader,
    iss: u32,
    local_mss: u16,
    now: VirtualTime,
    timeout: u64,
)
    ensures
        ({
            let c = Conn::from_syn(id, flow, syn, iss, local_mss, now, timeout);
            let theirs = match syn.mss {
                Some(m) => m,
                None => 536,
            };
            let least = if theirs <= local_mss { theirs } else { local_mss };
            &&& c.wf()
            &&& c.t.id == id && c.t.flow == flow && c.t.state == State::Connecting
            &&& c.t.irs == syn.seq && c.t.rcv_nxt == wadd(syn.seq, 1)
            &&& c.t.iss == iss && c.t.snd_una == iss && c.t.snd_nxt == iss && c.t.snd_max == iss
            &&& c.t.snd_wnd == syn.window
            &&& c.t.mss == if least >= 64 { least as u32 } else { 64 }
            &&& c.t.cwnd == 10 * c.t.mss && c.t.ssthresh == u32::MAX
            &&& c.t.local_mss == local_mss
            &&& c.t.connect_deadline == now.later(timeout)
            &&& c.t.rto == RTO_INITIAL && c.t.srtt is None && c.t.rtx_deadline is None
            &&& !c.t.tx_eof && !c.t.rx_fin && c.t.fin_seq is None && c.t.close_reason is None
            &&& c.t.bytes_to_remote == 0 && c.t.bytes_to_guest == 0
            &&& c.tx.len() == 0 && c.rx.len() == 0
        }),
{
}

/// A connection that the host starts, and its SYN: a bare SYN with the first number
/// and the segment size, repeated until the guest answers or the deadline passes.
pub proof fn law_host_starts_a_connection<M>(
    w: World<M>,
    id: ConnId,
    flow: Flow,
    iss: u32,
    local_mss: u16,
    now: VirtualTime,
    timeout: u64,
)
    ensures
        ({
            let c = Conn::towards_guest(id, flow, iss, local_mss, now, timeout);
            let (d, w2) = c.send_syn(w, now, TCP_SYN);
            let g = w2.out.last();
            &&& c.wf() && c.t.state == State::SynSent && c.t.id == id && c.t.flow == flow
            &&& c.t.connect_deadline == now.later(timeout)
            &&& d.t.snd_una == iss && d.t.snd_nxt == wadd(iss, 1) && d.t.snd_max == wadd(iss, 1)
            &&& d.t.rtx_deadline == Some(now.later(RTO_INITIAL))
            &&& w2.out.len() == w.out.len() + 1 && w2.out.drop_last() == w.out
            &&& g.seq == iss && g.flags == TCP_SYN && g.mss == Some(local_mss) && g.payload.len()
                == 0
        }),
{
    assert(0x02u8 & 0x02u8 != 0) by (bit_vector);
    let c = Conn::towards_guest(id, flow, iss, local_mss, now, timeout);
    assert(c.send_syn(w, now, TCP_SYN).1.out.drop_last() =~= w.out);
}

/// The round trip is measured on new data only: one sample at a time, from the
/// segment that leaves to the acknowledgement of its end.
pub proof fn law_round_trip_is_measured<M>(c: Conn, w: World<M>, now: VirtualTime)
    requires
        c.wf(),
        c.next_len() > 0,
    ensures
        ({
            let d = c.send_next(w, now).0;
            &&& c.t.rtt_sample is None && c.t.snd_nxt == c.t.snd_max ==> d.t.rtt_sample == Some(
                RttSample { seq: d.t.snd_nxt, at: now },
            )
            &&& c.t.rtt_sample is Some || c.t.snd_nxt != c.t.snd_max ==> d.t.rtt_sample
                == c.t.rtt_sample
        }),
{
}

/// The guest is told when the receive window has opened again by a segment (at most
/// half of it): an acknowledgement is owed then, and not for less.
pub proof fn law_opened_window_is_announced(c: Conn)
    requires
        c.wf(),
        !c.t.rx_fin,
    ensures
        ({
            let edge = wadd(c.t.rcv_nxt, (RX_CAPACITY - c.rx.len()) as u32);
            let by = wsub(edge, c.t.adv_edge);
            let enough = if c.t.mss <= 32_767 { c.t.mss } else { 32_767 };
            let d = c.window_checked();
            &&& enough <= by < 0x8000_0000 ==> d == (Conn {
                t: Tcb { ack_pending: true, ..c.t },
                ..c
            })
            &&& by < enough || by > 0x8000_0000 ==> d == c
        }),
{
    reveal(wsub);
}

} // verus!
