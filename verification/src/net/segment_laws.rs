//! What a segment of the guest does to its connection, and what the connection
//! sends.
use vstd::prelude::*;
use crate::net::addr::VirtualTime;
use crate::net::events::{CloseReason, Direction, Event, Fact};
use crate::net::tcp::{before, not_after, wadd, wsub, Conn, State, Tcb, World, RX_CAPACITY, TIME_WAIT_US};
use crate::net::upstream::Upstream;
use crate::net::wire::{TcpHeader, TCP_ACK, TCP_FIN, TCP_RST, TCP_SYN};

verus! {

/// A plain segment: it acknowledges, and neither opens nor breaks anything.
pub open spec fn is_plain(h: TcpHeader) -> bool {
    h.flag(TCP_ACK) && !h.flag(TCP_SYN) && !h.flag(TCP_RST)
}

/// What the segment acknowledges was sent, and not acknowledged by less before.
pub open spec fn acks_what_was_sent(t: Tcb, h: TcpHeader) -> bool {
    wsub(h.ack, t.snd_una) <= wsub(t.snd_max, t.snd_una) < 0x8000_0000
}

/// The segment acknowledges the FIN of this side, and that is news.
pub open spec fn acks_the_fin(t: Tcb, h: TcpHeader) -> bool {
    h.ack != t.snd_una && (t.fin_seq matches Some(f) && before(f, h.ack))
}

proof fn lemma_ack_order(t: Tcb, ack: u32)
    requires
        wsub(ack, t.snd_una) <= wsub(t.snd_max, t.snd_una) < 0x8000_0000,
    ensures
        !before(t.snd_max, ack),
        not_after(t.snd_una, ack),
        before(t.snd_una, ack) <==> ack != t.snd_una,
        not_after(ack, t.snd_max),
{
    reveal(wsub);
}

proof fn lemma_ack_keeps<M>(c: Conn, w: World<M>, now: VirtualTime, h: TcpHeader, len: nat)
    ensures
        ({
            let (d, w2) = c.ack_taken(w, now, h, len);
            &&& d.rx == c.rx
            &&& d.t.rcv_nxt == c.t.rcv_nxt
            &&& d.t.irs == c.t.irs
            &&& d.t.state == c.t.state
            &&& d.t.id == c.t.id
            &&& d.t.bytes_to_remote == c.t.bytes_to_remote
            &&& d.t.bytes_to_guest == c.t.bytes_to_guest
            &&& d.t.rx_fin == c.t.rx_fin
            &&& d.t.shutdown_done == c.t.shutdown_done
            &&& d.t.fin_seq == c.t.fin_seq
            &&& d.t.tx_eof == c.t.tx_eof
            &&& d.t.mss == c.t.mss
            &&& d.t.snd_max == c.t.snd_max
            &&& w2.log == w.log
            &&& w2.up == w.up
        }),
{
    reveal(Conn::ack_taken);
    reveal(Tcb::rtt_updated);
}

proof fn lemma_within(nxt: u32, d: u32, wnd: u32)
    requires
        d < wnd <= 65_535,
    ensures
        not_after(nxt, wadd(nxt, d)),
        before(wadd(nxt, d), wadd(nxt, wnd)),
        wadd(nxt, 0) == nxt,
{
    reveal(wsub);
    reveal(wadd);
}

proof fn lemma_shift(nxt: u32, seq: u32, k: u32)
    requires
        wsub(nxt, seq) <= k <= 70_000,
    ensures
        wadd(seq, k) == wadd(nxt, (k - wsub(nxt, seq)) as u32),
        nxt == seq <==> wsub(nxt, seq) == 0,
        !before(nxt, seq),
{
    reveal(wsub);
    reveal(wadd);
}

proof fn lemma_earlier(nxt: u32, seq: u32, j: u32)
    requires
        j < wsub(nxt, seq) < 0x7fff_0000,
    ensures
        !not_after(nxt, wadd(seq, j)),
        wadd(seq, 0) == seq,
{
    reveal(wsub);
    reveal(wadd);
}

/// A segment that starts where the next byte is expected, or before it, is
/// acceptable if something of it fits.
proof fn lemma_overlap(c: Conn, h: TcpHeader, len: nat)
    requires
        c.wf(),
        !h.flag(TCP_SYN),
        c.rx.len() < RX_CAPACITY,
        len <= 65_535,
        wsub(c.t.rcv_nxt, h.seq) <= len,
        h.seq == c.t.rcv_nxt || 0 < len - wsub(c.t.rcv_nxt, h.seq) + (if h.flag(TCP_FIN) {
            1int
        } else {
            0
        }) <= RX_CAPACITY - c.rx.len(),
    ensures
        c.acceptable(h, len),
        !before(c.t.rcv_nxt, h.seq),
{
    let old = wsub(c.t.rcv_nxt, h.seq);
    let l = Conn::seg_len(h, len);
    lemma_shift(c.t.rcv_nxt, h.seq, len as u32);
    lemma_within(c.t.rcv_nxt, 0, c.rcv_wnd());
    if h.seq != c.t.rcv_nxt {
        lemma_shift(c.t.rcv_nxt, h.seq, (l - 1) as u32);
        lemma_within(c.t.rcv_nxt, (l - 1 - old) as u32, c.rcv_wnd());
    }
}

/// The end of the payload, as a sequence number, is where the data taken ends.
proof fn lemma_reaches(nxt: u32, seq: u32, len: nat, n: nat)
    requires
        len <= 65_535,
        wsub(nxt, seq) <= len,
        n <= len - wsub(nxt, seq),
    ensures
        wadd(seq, len as u32) == wadd(nxt, n as u32) <==> n == len - wsub(nxt, seq),
        n == 0 ==> wadd(nxt, 0) == nxt,
        len - wsub(nxt, seq) == n ==> wadd(wadd(nxt, n as u32), 1) == wadd(seq, (len + 1) as u32),
{
    reveal(wsub);
    reveal(wadd);
}

/// A segment that starts where the next byte is expected, or repeats some bytes
/// before it, is taken in order: what is new and fits joins the received data,
/// `rcv_nxt` moves past it, it is counted, logged and acknowledged. A FIN counts
/// when the payload before it, of whatever length, was taken to its end: it takes
/// one more number, and the states go on to CLOSE-WAIT, CLOSING or TIME-WAIT. In
/// SYN-RECEIVED the acknowledgement completes the handshake first.
pub proof fn law_data_and_fin_are_taken<U: Upstream>(
    c: Conn,
    w: World<U::Model>,
    now: VirtualTime,
    h: TcpHeader,
    payload: Seq<u8>,
)
    requires
        c.wf(),
        c.t.state == State::Established || c.t.state == State::FinWait1 || c.t.state
            == State::FinWait2 || (c.t.state == State::SynReceived && h.ack != c.t.snd_una),
        is_plain(h),
        acks_what_was_sent(c.t, h),
        c.rx.len() < RX_CAPACITY,
        payload.len() <= 65_535,
        wsub(c.t.rcv_nxt, h.seq) <= payload.len(),
        h.seq == c.t.rcv_nxt || 0 < payload.len() - wsub(c.t.rcv_nxt, h.seq) + (if h.flag(TCP_FIN) {
            1int
        } else {
            0
        }) <= RX_CAPACITY - c.rx.len(),
    ensures
        ({
            let (d, w2) = c.input::<U>(w, now, h, payload);
            let old = wsub(c.t.rcv_nxt, h.seq);
            let room = RX_CAPACITY - c.rx.len();
            let n = if payload.len() - old <= room { payload.len() - old } else { room };
            let opened = c.t.state == State::SynReceived;
            let log = if opened {
                w.log.push(Event { at: now, kind: Fact::TcpEstablished { id: c.t.id } })
            } else {
                w.log
            };
            let whole = n == payload.len() - old;
            &&& d.rx == c.rx + payload.subrange(old as int, old + n)
            &&& d.t.bytes_to_remote == (c.t.bytes_to_remote + n) % 0x1_0000_0000_0000_0000
            &&& w2.up == w.up
            &&& w2.log == if n > 0 {
                log.push(
                    Event {
                        at: now,
                        kind: Fact::TcpData {
                            id: c.t.id,
                            dir: Direction::ToRemote,
                            len: n as usize,
                        },
                    },
                )
            } else {
                log
            }
            &&& payload.len() > 0 ==> d.t.ack_pending
            &&& h.flag(TCP_FIN) && whole ==> {
                &&& d.t.rcv_nxt == wadd(h.seq, (payload.len() + 1) as u32)
                &&& d.t.rx_fin
                &&& d.t.ack_pending
                &&& d.t.state == match c.t.state {
                    State::FinWait1 => if acks_the_fin(c.t, h) {
                        State::TimeWait
                    } else {
                        State::Closing
                    },
                    State::FinWait2 => State::TimeWait,
                    _ => State::CloseWait,
                }
            }
            &&& !(h.flag(TCP_FIN) && whole) ==> {
                &&& d.t.rcv_nxt == wadd(c.t.rcv_nxt, n as u32)
                &&& d.t.rx_fin == c.t.rx_fin
                &&& d.t.state == match c.t.state {
                    State::FinWait1 => if acks_the_fin(c.t, h) {
                        State::FinWait2
                    } else {
                        State::FinWait1
                    },
                    State::FinWait2 => State::FinWait2,
                    _ => State::Established,
                }
            }
        }),
{
    lemma_ack_order(c.t, h.ack);
    lemma_overlap(c, h, payload.len());
    let (c1, w1, v1) = c.ack_input::<U>(w, now, h, payload.len());
    let b = if c.t.state == State::SynReceived { c.handshake_ack(w, now, h).0 } else { c };
    let bw = if c.t.state == State::SynReceived { c.handshake_ack(w, now, h).1 } else { w };
    lemma_ack_keeps(b, bw, now, h, payload.len());
    assert(v1 is GoOn);
    assert(c1.rx == c.rx && c1.t.rcv_nxt == c.t.rcv_nxt && c1.t.rx_fin == c.t.rx_fin);
    assert(c1.t.bytes_to_remote == c.t.bytes_to_remote && c1.t.id == c.t.id);
    let old = wsub(c.t.rcv_nxt, h.seq);
    let room = RX_CAPACITY - c.rx.len();
    let n = if payload.len() - old <= room { payload.len() - old } else { room };
    lemma_reaches(c.t.rcv_nxt, h.seq, payload.len(), n as nat);
    let (d, w2) = c.input::<U>(w, now, h, payload);
    assert(c.input::<U>(w, now, h, payload) == c1.text_input(w1, now, h, payload));
    assert(payload.skip(old as int).take(n) =~= payload.subrange(old as int, old + n));
    assert(c.rx + payload.subrange(old as int, old as int) =~= c.rx);
    if c1.takes_data() {
        if payload.len() > 0 {
            assert(c1.new_data(h, payload) == payload.skip(old as int));
            assert(c1.taken_len(h, payload) == n);
        }
    }
}

/// A segment that lies wholly before what is expected is an old one: nothing of
/// it is taken, and it is acknowledged again. Only a FIN repeated in TIME-WAIT
/// does something more: the wait starts over.
pub proof fn law_old_segment_is_acknowledged_again<U: Upstream>(
    c: Conn,
    w: World<U::Model>,
    now: VirtualTime,
    h: TcpHeader,
    payload: Seq<u8>,
)
    requires
        c.wf(),
        c.t.state != State::Closed && c.t.state != State::Connecting && c.t.state != State::SynSent,
        is_plain(h),
        payload.len() <= 65_535,
        payload.len() + (if h.flag(TCP_FIN) { 1int } else { 0 }) <= wsub(c.t.rcv_nxt, h.seq),
        0 < wsub(c.t.rcv_nxt, h.seq) < 0x7fff_0000,
    ensures
        ({
            let (d, w2) = c.input::<U>(w, now, h, payload);
            &&& w2 == w
            &&& d.rx == c.rx && d.tx == c.tx
            &&& d.t == (Tcb {
                ack_pending: true,
                time_wait_deadline: if c.t.state == State::TimeWait && h.flag(TCP_FIN) {
                    now.later(TIME_WAIT_US)
                } else {
                    c.t.time_wait_deadline
                },
                ..c.t
            })
        }),
{
    let l = Conn::seg_len(h, payload.len());
    lemma_earlier(c.t.rcv_nxt, h.seq, 0);
    if l > 0 {
        lemma_earlier(c.t.rcv_nxt, h.seq, (l - 1) as u32);
    }
    assert(!c.acceptable(h, payload.len()));
}

/// With a full receive buffer data is refused, and answered with the closed
/// window.
pub proof fn law_full_buffer_refuses_data<U: Upstream>(
    c: Conn,
    w: World<U::Model>,
    now: VirtualTime,
    h: TcpHeader,
    payload: Seq<u8>,
)
    requires
        c.t.state == State::Established || c.t.state == State::FinWait1 || c.t.state
            == State::FinWait2,
        c.rx.len() == RX_CAPACITY,
        is_plain(h),
        0 < payload.len() <= 65_535,
    ensures
        c.input::<U>(w, now, h, payload) == (
            Conn { t: Tcb { ack_pending: true, ..c.t }, ..c },
            w,
        ),
{
}

/// States in which the other side's acknowledgements are taken.
pub open spec fn is_synchronized(s: State) -> bool {
    s == State::Established || s == State::CloseWait || s == State::FinWait1 || s == State::FinWait2
        || s == State::Closing || s == State::LastAck || s == State::TimeWait
}

/// A plain segment without data does what its acknowledgement does.
proof fn lemma_bare_ack<U: Upstream>(c: Conn, w: World<U::Model>, now: VirtualTime, h: TcpHeader)
    requires
        c.wf(),
        is_synchronized(c.t.state),
        is_plain(h) && !h.flag(TCP_FIN),
        h.seq == c.t.rcv_nxt,
        !before(c.t.snd_max, h.ack),
    ensures
        ({
            let fin = before(c.t.snd_una, h.ack) && c.acks_fin(h.ack);
            let (c2, w2) = c.ack_taken(w, now, h, 0);
            let c3 = c2.window_taken(h);
            let (d, e, _) = c3.fin_acked::<U>(w2, now);
            c.input::<U>(w, now, h, Seq::empty()) == if fin { (d, e) } else { (c3, w2) }
        }),
{
    if c.rx.len() < RX_CAPACITY {
        lemma_overlap_exact(c, h, 0);
    }
    assert(c.acceptable(h, 0));
}

proof fn lemma_new_ack<M>(c: Conn, w: World<M>, now: VirtualTime, h: TcpHeader)
    requires
        before(c.t.snd_una, h.ack),
        wsub(h.ack, c.t.snd_una) > 0,
        c.t.snd_una != c.t.iss,
    ensures
        ({
            let (d, w2) = c.ack_taken(w, now, h, 0);
            let n = wsub(h.ack, c.t.snd_una) - (if c.acks_fin(h.ack) { 1int } else { 0 });
            let out = if n <= c.tx.len() { n } else { c.tx.len() as int };
            &&& w2 == w
            &&& d.t.snd_una == h.ack
            &&& d.tx == c.tx.skip(out)
            &&& d.t.retries == 0 && d.t.dup_acks == 0
            &&& d.t.rto == d.t.rto_base
            &&& d.t.snd_nxt == if before(c.t.snd_nxt, h.ack) { h.ack } else { c.t.snd_nxt }
            &&& d.t.rtx_deadline == if h.ack == c.t.snd_max {
                None
            } else {
                Some(now.later(d.t.rto))
            }
        }),
{
    reveal(Conn::ack_taken);
    reveal(Tcb::rtt_updated);
}

/// A segment without data that acknowledges something new: the acknowledged
/// bytes leave the transmit buffer and no others (the FIN is no byte of it), the
/// retries and the duplicates are forgotten, the timeout is the measured one
/// again, and the timer runs as long as something is not acknowledged. What was
/// received stays.
pub proof fn law_ack_is_taken<U: Upstream>(c: Conn, w: World<U::Model>, now: VirtualTime, h: TcpHeader)
    requires
        c.wf(),
        is_synchronized(c.t.state),
        is_plain(h) && !h.flag(TCP_FIN),
        h.seq == c.t.rcv_nxt,
        acks_what_was_sent(c.t, h),
        h.ack != c.t.snd_una,
        c.t.snd_una != c.t.iss,
    ensures
        ({
            let (d, w2) = c.input::<U>(w, now, h, Seq::empty());
            let fin = acks_the_fin(c.t, h);
            let n = wsub(h.ack, c.t.snd_una) - (if fin { 1int } else { 0 });
            let out = if n <= c.tx.len() { n } else { c.tx.len() as int };
            let ended = fin && c.t.state == State::LastAck;
            &&& d.t.snd_una == h.ack
            &&& d.tx == c.tx.skip(out)
            &&& d.rx == c.rx && d.t.rcv_nxt == c.t.rcv_nxt && d.t.rx_fin == c.t.rx_fin
            &&& d.t.retries == 0 && d.t.dup_acks == 0
            &&& d.t.rto == d.t.rto_base
            &&& d.t.snd_max == c.t.snd_max
            &&& d.t.snd_nxt == if before(c.t.snd_nxt, h.ack) { h.ack } else { c.t.snd_nxt }
            &&& w2.out == w.out
            &&& h.ack == c.t.snd_max || ended ==> d.t.rtx_deadline is None
            &&& h.ack != c.t.snd_max && !fin ==> d.t.rtx_deadline == Some(now.later(d.t.rto))
            &&& !ended ==> w2 == w
            &&& ended ==> {
                &&& d.t.close_reason == Some(CloseReason::Normal)
                &&& w2.up == U::closed(w.up, now, c.t.id, false)
                &&& w2.log.len() == w.log.len() + 1
            }
            &&& d.t.state == if !fin {
                c.t.state
            } else {
                match c.t.state {
                    State::FinWait1 => State::FinWait2,
                    State::Closing => State::TimeWait,
                    State::LastAck => State::Closed,
                    s => s,
                }
            }
        }),
{
    lemma_ack_order(c.t, h.ack);
    lemma_bare_ack::<U>(c, w, now, h);
    assert(wsub(h.ack, c.t.snd_una) > 0) by {
        reveal(wsub);
    }
    lemma_new_ack(c, w, now, h);
    lemma_ack_keeps(c, w, now, h, 0);
}

/// A segment that acknowledges what was never sent is only acknowledged itself.
pub proof fn law_ack_of_the_future_is_refused<U: Upstream>(
    c: Conn,
    w: World<U::Model>,
    now: VirtualTime,
    h: TcpHeader,
    payload: Seq<u8>,
)
    requires
        c.wf(),
        is_synchronized(c.t.state),
        is_plain(h),
        c.rx.len() < RX_CAPACITY,
        h.seq == c.t.rcv_nxt,
        payload.len() <= 65_535,
        0 < wsub(h.ack, c.t.snd_max) < 0x8000_0000,
    ensures
        c.input::<U>(w, now, h, payload) == (
            Conn { t: Tcb { ack_pending: true, ..c.t }, ..c },
            w,
        ),
{
    assert(before(c.t.snd_max, h.ack)) by {
        reveal(wsub);
    }
    lemma_overlap_exact(c, h, payload.len());
}

proof fn lemma_overlap_exact(c: Conn, h: TcpHeader, len: nat)
    requires
        c.wf(),
        !h.flag(TCP_SYN),
        c.rx.len() < RX_CAPACITY,
        len <= 65_535,
        h.seq == c.t.rcv_nxt,
    ensures
        c.acceptable(h, len),
{
    lemma_within(c.t.rcv_nxt, 0, c.rcv_wnd());
}

/// The third acknowledgement in a row that says the same sends the first
/// unacknowledged bytes again at once, at most one segment of them, and halves
/// what may be under way; the first two, and those after the third, send nothing.
pub proof fn law_third_duplicate_sends_again<U: Upstream>(
    c: Conn,
    w: World<U::Model>,
    now: VirtualTime,
    h: TcpHeader,
)
    requires
        c.wf(),
        is_synchronized(c.t.state),
        is_plain(h) && !h.flag(TCP_FIN),
        h.seq == c.t.rcv_nxt,
        h.ack == c.t.snd_una,
        h.window as u32 == c.t.snd_wnd,
        h.window > 0,
        0 < wsub(c.t.snd_max, c.t.snd_una) < 0x8000_0000,
        c.tx.len() > 0,
    ensures
        ({
            let (d, w2) = c.input::<U>(w, now, h, Seq::empty());
            let sent = wsub(c.t.snd_max, c.t.snd_una);
            let most = if c.t.mss <= c.tx.len() { c.t.mss as int } else { c.tx.len() as int };
            let n = if most <= sent { most } else { sent as int };
            &&& d.tx == c.tx && d.rx == c.rx
            &&& d.t.snd_una == c.t.snd_una && d.t.snd_nxt == c.t.snd_nxt
            &&& d.t.retries == 0
            &&& d.t.dup_acks == (c.t.dup_acks + 1) % 0x1_0000_0000
            &&& d.t.state == c.t.state
            &&& w2.log == w.log && w2.up == w.up
            &&& c.t.dup_acks == 2 ==> {
                &&& w2.out.len() == w.out.len() + 1
                &&& w2.out.drop_last() == w.out
                &&& w2.out.last().seq == c.t.snd_una
                &&& w2.out.last().ack == c.t.rcv_nxt
                &&& w2.out.last().flags == TCP_ACK
                &&& w2.out.last().payload == c.tx.take(n)
                &&& d.t.cwnd == d.t.ssthresh
                &&& d.t.ssthresh >= 2 * c.t.mss
                &&& wsub(c.t.snd_nxt, c.t.snd_una) / 2 <= d.t.ssthresh
                &&& d.t.ssthresh == 2 * c.t.mss || d.t.ssthresh == wsub(c.t.snd_nxt, c.t.snd_una) / 2
                &&& d.t.rtt_sample is None
            }
            &&& c.t.dup_acks != 2 ==> w2.out == w.out && d.t.cwnd == c.t.cwnd && d.t.ssthresh
                == c.t.ssthresh
        }),
{
    assert(!before(c.t.snd_max, h.ack) && !before(c.t.snd_una, h.ack) && c.t.snd_max != c.t.snd_una)
        by {
        reveal(wsub);
    }
    lemma_bare_ack::<U>(c, w, now, h);
    lemma_duplicate(c, w, now, h);
}

proof fn lemma_duplicate<M>(c: Conn, w: World<M>, now: VirtualTime, h: TcpHeader)
    requires
        c.wf(),
        !h.flag(TCP_FIN),
        h.ack == c.t.snd_una,
        h.window as u32 == c.t.snd_wnd,
        h.window > 0,
        !before(c.t.snd_una, h.ack),
        c.t.snd_max != c.t.snd_una,
        wsub(c.t.snd_max, c.t.snd_una) > 0,
        c.tx.len() > 0,
    ensures
        ({
            let (d, w2) = c.ack_taken(w, now, h, 0);
            let sent = wsub(c.t.snd_max, c.t.snd_una);
            let most = if c.t.mss <= c.tx.len() { c.t.mss as int } else { c.tx.len() as int };
            let n = if most <= sent { most } else { sent as int };
            &&& d.tx == c.tx && d.rx == c.rx
            &&& d.t.snd_una == c.t.snd_una && d.t.snd_nxt == c.t.snd_nxt
            &&& d.t.retries == 0
            &&& d.t.dup_acks == (c.t.dup_acks + 1) % 0x1_0000_0000
            &&& d.t.state == c.t.state
            &&& w2.log == w.log && w2.up == w.up
            &&& c.t.dup_acks == 2 ==> {
                &&& w2.out.len() == w.out.len() + 1
                &&& w2.out.drop_last() == w.out
                &&& w2.out.last().seq == c.t.snd_una
                &&& w2.out.last().ack == c.t.rcv_nxt
                &&& w2.out.last().flags == TCP_ACK
                &&& w2.out.last().payload == c.tx.take(n)
                &&& d.t.cwnd == d.t.ssthresh
                &&& d.t.ssthresh == if wsub(c.t.snd_nxt, c.t.snd_una) / 2 >= 2 * c.t.mss {
                    wsub(c.t.snd_nxt, c.t.snd_una) / 2
                } else {
                    (2 * c.t.mss) as u32
                }
                &&& d.t.rtt_sample is None
            }
            &&& c.t.dup_acks != 2 ==> w2.out == w.out && d.t.cwnd == c.t.cwnd && d.t.ssthresh
                == c.t.ssthresh
        }),
{
    reveal(Conn::ack_taken);
    reveal(wadd);
    let (d, w2) = c.ack_taken(w, now, h, 0);
    let b = Conn { t: Tcb { retries: 0, dup_acks: wadd(c.t.dup_acks, 1), ..c.t }, ..c };
    assert(b.first_len() == c.first_len());
    if c.t.dup_acks == 2 {
        assert(w2.out.drop_last() =~= w.out);
    }
}

/// The window that a segment announces holds from then on, unless the segment is
/// older than the one that announced the last: then that one stays.
pub proof fn law_newest_window_holds<U: Upstream>(
    c: Conn,
    w: World<U::Model>,
    now: VirtualTime,
    h: TcpHeader,
)
    requires
        c.wf(),
        is_synchronized(c.t.state),
        is_plain(h) && !h.flag(TCP_FIN),
        h.seq == c.t.rcv_nxt,
        acks_what_was_sent(c.t, h),
    ensures
        ({
            let d = c.input::<U>(w, now, h, Seq::empty()).0;
            let newer = before(c.t.snd_wl1, h.seq) || (c.t.snd_wl1 == h.seq && not_after(
                c.t.snd_wl2,
                h.ack,
            ));
            &&& newer ==> d.t.snd_wnd == h.window && d.t.snd_wl1 == h.seq && d.t.snd_wl2 == h.ack
            &&& !newer ==> d.t.snd_wnd == c.t.snd_wnd && d.t.snd_wl1 == c.t.snd_wl1
                && d.t.snd_wl2 == c.t.snd_wl2
        }),
{
    lemma_ack_order(c.t, h.ack);
    lemma_bare_ack::<U>(c, w, now, h);
    lemma_ack_leaves_the_window(c, w, now, h);
}

proof fn lemma_ack_leaves_the_window<M>(c: Conn, w: World<M>, now: VirtualTime, h: TcpHeader)
    ensures
        ({
            let d = c.ack_taken(w, now, h, 0).0;
            &&& d.t.snd_wnd == c.t.snd_wnd
            &&& d.t.snd_wl1 == c.t.snd_wl1
            &&& d.t.snd_wl2 == c.t.snd_wl2
        }),
{
    reveal(Conn::ack_taken);
    reveal(Tcb::rtt_updated);
}

/// What a connection that ends leaves behind.
pub open spec fn is_over<U: Upstream>(
    c: Conn,
    w: World<U::Model>,
    d: Conn,
    w2: World<U::Model>,
    now: VirtualTime,
    reason: CloseReason,
    reset: bool,
) -> bool {
    &&& d.t.state == State::Closed
    &&& d.t.rtx_deadline is None
    &&& d.t.close_reason == Some(reason)
    &&& w2.up == U::closed(w.up, now, c.t.id, reset)
    &&& w2.log == w.log.push(
        Event {
            at: now,
            kind: Fact::TcpClosed {
                id: c.t.id,
                reason,
                bytes_to_remote: c.t.bytes_to_remote,
                bytes_to_guest: c.t.bytes_to_guest,
            },
        },
    )
}

/// An RST where the next byte is expected breaks the connection, whatever its
/// state: nothing is sent, the upstream learns that it was broken. Before the
/// handshake it may also repeat the number of the SYN.
pub proof fn law_reset_breaks_the_connection<U: Upstream>(
    c: Conn,
    w: World<U::Model>,
    now: VirtualTime,
    h: TcpHeader,
    payload: Seq<u8>,
)
    requires
        c.wf(),
        c.t.state != State::Closed && c.t.state != State::SynSent,
        h.flag(TCP_RST) && !h.flag(TCP_SYN),
        c.t.state == State::Connecting || c.rx.len() < RX_CAPACITY || (payload.len() == 0
            && !h.flag(TCP_FIN)),
        payload.len() <= 65_535,
        h.seq == c.t.rcv_nxt || (c.t.state == State::Connecting && h.seq == c.t.irs),
    ensures
        ({
            let (d, w2) = c.input::<U>(w, now, h, payload);
            &&& is_over::<U>(c, w, d, w2, now, CloseReason::GuestReset, true)
            &&& w2.out == w.out
        }),
{
    if c.t.state != State::Connecting {
        assert(c.acceptable(h, payload.len())) by {
            reveal(wsub);
            reveal(wadd);
        }
    }
}

/// Before the upstream has answered, a segment of the guest that breaks nothing
/// changes nothing.
pub proof fn law_connecting_waits<U: Upstream>(
    c: Conn,
    w: World<U::Model>,
    now: VirtualTime,
    h: TcpHeader,
    payload: Seq<u8>,
)
    requires
        c.t.state == State::Connecting,
        !h.flag(TCP_RST) || (h.seq != c.t.rcv_nxt && h.seq != c.t.irs),
    ensures
        c.input::<U>(w, now, h, payload) == (c, w),
{
}

/// The guest's answers to the SYN of a connection that the host opens: a SYN-ACK
/// opens it, with the smaller of the two segment sizes (at least 64 bytes) and
/// the window that it announces; an RST that acknowledges the SYN refuses it, and
/// any other RST is ignored; an ACK of anything else is answered with an RST that
/// takes its number.
pub proof fn law_guest_answers_the_opening<U: Upstream>(
    c: Conn,
    w: World<U::Model>,
    now: VirtualTime,
    h: TcpHeader,
    payload: Seq<u8>,
)
    requires
        c.t.state == State::SynSent,
    ensures
        ({
            let (d, w2) = c.input::<U>(w, now, h, payload);
            let acked = h.flag(TCP_ACK) && h.ack == c.t.snd_nxt;
            let theirs = match h.mss {
                Some(m) => m,
                None => 536,
            };
            &&& h.flag(TCP_RST) && acked ==> is_over::<U>(
                c,
                w,
                d,
                w2,
                now,
                CloseReason::Refused,
                true,
            ) && w2.out == w.out
            &&& h.flag(TCP_RST) && !acked ==> d == c && w2 == w
            &&& h.flag(TCP_SYN) && acked && !h.flag(TCP_RST) ==> {
                &&& d.t.state == State::Established
                &&& d.t.rcv_nxt == wadd(h.seq, 1) && d.t.irs == h.seq
                &&& d.t.snd_una == h.ack && d.t.snd_nxt == c.t.snd_nxt
                &&& d.t.snd_wnd == h.window
                &&& 64 <= d.t.mss
                &&& d.t.mss <= theirs || d.t.mss == 64
                &&& d.t.mss <= c.t.local_mss || d.t.mss == 64
                &&& d.t.mss == 64 || d.t.mss == theirs || d.t.mss == c.t.local_mss
                &&& d.t.cwnd == 10 * d.t.mss
                &&& d.t.rtx_deadline is None && d.t.retries == 0
                &&& d.t.ack_pending
                &&& d.tx == c.tx && d.rx == c.rx
                &&& w2.out == w.out && w2.up == w.up
                &&& w2.log == w.log.push(
                    Event { at: now, kind: Fact::TcpEstablished { id: c.t.id } },
                )
            }
            &&& h.flag(TCP_ACK) && !acked && !h.flag(TCP_RST) ==> {
                &&& d == c
                &&& w2.log == w.log && w2.up == w.up
                &&& w2.out.len() == w.out.len() + 1 && w2.out.drop_last() == w.out
                &&& w2.out.last().seq == h.ack && w2.out.last().flags == TCP_RST
                &&& w2.out.last().payload.len() == 0
            }
            &&& !h.flag(TCP_ACK) && !h.flag(TCP_RST) ==> d == c && w2 == w
        }),
{
    let (d, w2) = c.input::<U>(w, now, h, payload);
    if h.flag(TCP_ACK) && h.ack != c.t.snd_nxt && !h.flag(TCP_RST) {
        assert(w2.out.drop_last() =~= w.out);
    }
}

/// In SYN-RECEIVED the guest's SYN again makes the SYN-ACK leave again, and an
/// ACK of anything but the SYN-ACK is answered with an RST that takes its number.
pub proof fn law_handshake_is_guarded<U: Upstream>(
    c: Conn,
    w: World<U::Model>,
    now: VirtualTime,
    h: TcpHeader,
    payload: Seq<u8>,
)
    requires
        c.wf(),
        c.t.state == State::SynReceived,
        c.rx.len() < RX_CAPACITY,
        payload.len() <= 65_535,
        !h.flag(TCP_RST),
    ensures
        ({
            let (d, w2) = c.input::<U>(w, now, h, payload);
            &&& h.flag(TCP_SYN) && !h.flag(TCP_ACK) && h.seq == c.t.irs ==> {
                &&& d.t.state == State::SynReceived
                &&& d.t.snd_nxt == wadd(c.t.iss, 1)
                &&& d.t.rtx_deadline is Some
                &&& w2.log == w.log && w2.up == w.up
                &&& w2.out.len() == w.out.len() + 1 && w2.out.drop_last() == w.out
                &&& w2.out.last().seq == c.t.iss && w2.out.last().ack == c.t.rcv_nxt
                &&& w2.out.last().flags == TCP_SYN | TCP_ACK
            }
            &&& is_plain(h) && h.seq == c.t.rcv_nxt && !(before(c.t.snd_una, h.ack) && not_after(
                h.ack,
                c.t.snd_max,
            )) ==> {
                &&& d == c
                &&& w2.log == w.log && w2.up == w.up
                &&& w2.out.len() == w.out.len() + 1 && w2.out.drop_last() == w.out
                &&& w2.out.last().seq == h.ack && w2.out.last().flags == TCP_RST
                &&& w2.out.last().payload.len() == 0
            }
        }),
{
    let (d, w2) = c.input::<U>(w, now, h, payload);
    assert(w.out.push(w2.out.last()).drop_last() =~= w.out);
    if is_plain(h) && h.seq == c.t.rcv_nxt {
        lemma_overlap_exact(c, h, payload.len());
    }
}

} // verus!
