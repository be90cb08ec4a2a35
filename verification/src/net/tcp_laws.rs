//! What holds of a TCP connection as a whole.
use vstd::prelude::*;
use crate::bytes::min_len;
use crate::net::addr::VirtualTime;
use crate::net::events::{CloseReason, Fact};
use crate::net::tcp::{before, wadd, wsub, Conn, Seg, State, Tcb, World, RTO_MAX, RTO_MIN, RX_CAPACITY};
use crate::net::upstream::Upstream;
use crate::net::wire::{TcpHeader, TCP_ACK, TCP_RST, TCP_SYN};

verus! {

/// The payload of a segment is a piece of the byte stream `f`, where `f` gives
/// the byte that belongs to each sequence number.
pub open spec fn carries(h: TcpHeader, payload: Seq<u8>, f: spec_fn(u32) -> u8) -> bool {
    forall|k: int| 0 <= k < payload.len() ==> #[trigger] payload[k] == f(wadd(h.seq, k as u32))
}

proof fn lemma_wadd_wadd(a: u32, b: u32, c: u32)
    requires
        b + c <= u32::MAX,
    ensures
        wadd(wadd(a, b), c) == wadd(a, (b + c) as u32),
{
    reveal(wadd);
}

proof fn lemma_wsub_wadd(a: u32, b: u32)
    ensures
        wadd(b, wsub(a, b)) == a,
        wsub(wadd(a, b), a) == b,
{
    reveal(wadd);
    reveal(wsub);
}

/// The upstream receives the guest's byte stream in order, without holes or
/// repetitions: whatever segments arrive, overlapping, repeated or out of order,
/// the bytes that join the receive buffer are those of the sequence numbers from
/// `rcv_nxt` on, and `rcv_nxt` moves past exactly those.
pub proof fn law_received_in_order<M>(
    c: Conn,
    w: World<M>,
    now: VirtualTime,
    h: TcpHeader,
    payload: Seq<u8>,
    f: spec_fn(u32) -> u8,
)
    requires
        c.wf(),
        payload.len() <= 65_535,
        carries(h, payload, f),
    ensures
        ({
            let after = c.data_input(w, now, h, payload).0;
            let n = after.rx.len() - c.rx.len();
            &&& 0 <= n <= 65_535
            &&& after.rx.take(c.rx.len() as int) == c.rx
            &&& after.t.rcv_nxt == wadd(c.t.rcv_nxt, n as u32)
            &&& forall|k: int|
                0 <= k < n ==> after.rx[c.rx.len() + k] == f(#[trigger] wadd(c.t.rcv_nxt, k as u32))
        }),
{
    reveal(wadd);
    let after = c.data_input(w, now, h, payload).0;
    assert(after.rx.take(c.rx.len() as int) =~= c.rx);
    if after.rx.len() > c.rx.len() {
        let ahead = wsub(c.t.rcv_nxt, h.seq);
        let skip = min_len(ahead as nat, payload.len());
        let n = after.rx.len() - c.rx.len();
        assert(skip == ahead);
        assert forall|k: int| 0 <= k < n implies after.rx[c.rx.len() + k] == f(
            #[trigger] wadd(c.t.rcv_nxt, k as u32),
        ) by {
            assert(after.rx[c.rx.len() + k] == payload[skip + k]);
            lemma_wsub_wadd(c.t.rcv_nxt, h.seq);
            lemma_wadd_wadd(h.seq, ahead, k as u32);
        }
    }
}

/// The bytes of a data segment are those that the transmit buffer holds for its
/// sequence numbers (the buffer starts at `snd_una`), and the segment stays
/// inside both the guest's window and the congestion window.
pub proof fn law_sent_within_windows<M>(c: Conn, w: World<M>, now: VirtualTime)
    requires
        c.wf(),
        c.next_len() > 0,
    ensures
        ({
            let s: Seg = c.send_next(w, now).1.out.last();
            let off = wsub(s.seq, c.t.snd_una);
            &&& s.payload.len() == c.next_len()
            &&& 0 < s.payload.len() <= c.t.mss
            &&& off + s.payload.len() <= c.t.snd_wnd
            &&& off + s.payload.len() <= c.t.cwnd
            &&& off + s.payload.len() <= c.tx.len()
            &&& s.payload == c.tx.subrange(off as int, off + s.payload.len())
        }),
{
}

/// A retransmitted segment carries the bytes that `snd_una` stands for.
pub proof fn law_fast_retransmit_repeats_the_first<M>(c: Conn, w: World<M>)
    requires
        c.wf(),
        c.first_len() > 0,
    ensures
        c.fast_retransmit(w).1.out.last().seq == c.t.snd_una,
        c.fast_retransmit(w).1.out.last().payload == c.tx.take(c.first_len() as int),
        c.fast_retransmit(w).0.tx == c.tx,
{
}

/// An ACK inside the data takes exactly the acknowledged bytes out of the
/// transmit buffer: the byte of every later sequence number stays what it was.
pub proof fn law_ack_drops_what_is_acknowledged(c: Conn, now: VirtualTime, ack: u32, s: u32)
    requires
        c.wf(),
        c.t.snd_una != c.t.iss,
        c.t.fin_seq is None,
        0 < wsub(ack, c.t.snd_una) <= wsub(s, c.t.snd_una) < c.tx.len(),
    ensures
        c.new_ack(now, ack).tx.len() == c.tx.len() - wsub(ack, c.t.snd_una),
        c.new_ack(now, ack).t.snd_una == ack,
        c.new_ack(now, ack).tx[wsub(s, ack) as int] == c.tx[wsub(s, c.t.snd_una) as int],
{
    reveal(wsub);
    let n = c.acked_bytes(ack);
    assert(n == wsub(ack, c.t.snd_una));
    assert(wsub(s, ack) == wsub(s, c.t.snd_una) - n);
}

/// What the guest is told it may send is what the receive buffer has room for.
pub proof fn law_window_is_the_free_room(c: Conn, seq: u32, flags: u8, payload: Seq<u8>)
    requires
        c.wf(),
    ensures
        c.segment(seq, flags, payload).window + c.rx.len() == RX_CAPACITY,
{
}

/// A closed connection does nothing any more: no segment, timer or exchange
/// changes it, logs, sends or reaches the upstream.
pub proof fn law_closed_is_final<U: Upstream>(
    c: Conn,
    w: World<U::Model>,
    now: VirtualTime,
    h: TcpHeader,
    payload: Seq<u8>,
    reason: CloseReason,
    reset: bool,
)
    requires
        c.t.state == State::Closed,
    ensures
        c.input::<U>(w, now, h, payload) == (c, w),
        c.on_timer::<U>(w, now) == (c, w),
        c.process::<U>(w, now) == (c, w),
        c.aborted::<U>(w, now) == (c, w),
        c.finish::<U>(w, now, reason, reset) == (c, w),
        c.next_deadline() is None,
{
}

/// An end is logged with its reason and the byte counts, and the upstream is
/// told, exactly when it happens.
pub proof fn law_end_is_logged<U: Upstream>(
    c: Conn,
    w: World<U::Model>,
    now: VirtualTime,
    reason: CloseReason,
    reset: bool,
)
    requires
        c.t.state != State::Closed,
    ensures
        ({
            let (d, w2) = c.finish::<U>(w, now, reason, reset);
            &&& d.t.state == State::Closed
            &&& d.t.close_reason == Some(reason)
            &&& w2.log.len() == w.log.len() + 1
            &&& w2.log.last().at == now
            &&& w2.log.last().kind == (Fact::TcpClosed {
                id: c.t.id,
                reason,
                bytes_to_remote: c.t.bytes_to_remote,
                bytes_to_guest: c.t.bytes_to_guest,
            })
            &&& w2.up == U::closed(w.up, now, c.t.id, reset)
            &&& w2.out == w.out
        }),
{
}

/// Before the announced deadline the timers do nothing.
pub proof fn law_timers_wait_for_the_deadline<U: Upstream>(
    c: Conn,
    w: World<U::Model>,
    now: VirtualTime,
)
    requires
        c.t.state != State::Connecting,
        c.t.state == State::TimeWait ==> c.t.rtx_deadline is None,
        c.next_deadline() matches Some(d) ==> now.0 < d.0,
    ensures
        c.on_timer::<U>(w, now) == (c, w),
{
}

/// The retransmission timeout stays between its bounds after every sample, and
/// a first sample gives SRTT = R, RTTVAR = R/2.
pub proof fn law_rto_stays_bounded(t: Tcb, r: u64)
    ensures
        RTO_MIN <= t.rtt_updated(r).rto <= RTO_MAX,
        t.rtt_updated(r).rto == t.rtt_updated(r).rto_base,
        t.srtt is None ==> t.rtt_updated(r).srtt == Some(r) && t.rtt_updated(r).rttvar == r / 2,
{
    reveal(Tcb::rtt_updated);
}

/// An RST outside the receive window is ignored altogether.
pub proof fn law_stray_reset_is_ignored<U: Upstream>(
    c: Conn,
    w: World<U::Model>,
    now: VirtualTime,
    h: TcpHeader,
    payload: Seq<u8>,
)
    requires
        c.wf(),
        c.t.state != State::Connecting,
        c.t.state != State::SynSent,
        h.flag(TCP_RST),
        !h.flag(TCP_SYN),
        !c.acceptable(h, payload.len()),
    ensures
        c.input::<U>(w, now, h, payload) == (c, w),
{
}

/// An RST inside the receive window that is not at its start closes nothing: it is
/// only answered with an acknowledgement.
pub proof fn law_misplaced_reset_is_challenged<U: Upstream>(
    c: Conn,
    w: World<U::Model>,
    now: VirtualTime,
    h: TcpHeader,
    payload: Seq<u8>,
)
    requires
        c.wf(),
        c.t.state != State::Closed,
        c.t.state != State::Connecting,
        c.t.state != State::SynSent,
        h.flag(TCP_RST),
        !h.flag(TCP_SYN),
        c.acceptable(h, payload.len()),
        h.seq != c.t.rcv_nxt,
    ensures
        c.input::<U>(w, now, h, payload) == (
            (Conn { t: Tcb { ack_pending: true, ..c.t }, ..c }),
            w,
        ),
{
}

/// When it is the guest that closes first, its FIN and ACK take the connection
/// through the states of the passive close: CLOSE-WAIT, then LAST-ACK, then the
/// end.
pub proof fn law_passive_close<U: Upstream>(c: Conn, w: World<U::Model>, now: VirtualTime)
    ensures
        c.t.state == State::Established ==> c.fin_input(now).t.state == State::CloseWait,
        c.t.state == State::CloseWait && c.t.fin_seq is None ==> c.send_fin(w, now).0.t.state
            == State::LastAck,
        c.t.state == State::LastAck ==> c.fin_acked::<U>(w, now).0.t.state == State::Closed,
        c.t.state == State::LastAck ==> c.fin_acked::<U>(w, now).0.t.close_reason == Some(
            CloseReason::Normal,
        ),
{
}

/// When the remote closes first: FIN-WAIT-1, FIN-WAIT-2, TIME-WAIT, then the end
/// once the wait is over; if both close at once, through CLOSING.
pub proof fn law_active_close<U: Upstream>(c: Conn, w: World<U::Model>, now: VirtualTime)
    ensures
        c.t.state == State::Established && c.t.fin_seq is None ==> c.send_fin(w, now).0.t.state
            == State::FinWait1,
        c.t.state == State::FinWait1 ==> c.fin_acked::<U>(w, now).0.t.state == State::FinWait2,
        c.t.state == State::FinWait1 ==> c.fin_input(now).t.state == State::Closing,
        c.t.state == State::FinWait2 ==> c.fin_input(now).t.state == State::TimeWait,
        c.t.state == State::Closing ==> c.fin_acked::<U>(w, now).0.t.state == State::TimeWait,
        c.t.state == State::TimeWait && now.0 >= c.t.time_wait_deadline.0 ==> c.on_timer::<U>(
            w,
            now,
        ).0.t.state == State::Closed,
{
}

/// A segment that comes too early is dropped and answered with an ACK of what is
/// expected: the buffer and `rcv_nxt` stay.
pub proof fn law_early_segment_is_dropped<M>(
    c: Conn,
    w: World<M>,
    now: VirtualTime,
    h: TcpHeader,
    payload: Seq<u8>,
)
    requires
        c.takes_data(),
        payload.len() > 0,
        before(c.t.rcv_nxt, h.seq),
    ensures
        ({
            let (d, w2) = c.data_input(w, now, h, payload);
            d.rx == c.rx && d.t.rcv_nxt == c.t.rcv_nxt && d.t.ack_pending && w2 == w
        }),
{
}

/// A SYN inside the window of an open connection is answered with an ACK and
/// changes nothing else.
pub proof fn law_stray_syn_is_challenged<U: Upstream>(
    c: Conn,
    w: World<U::Model>,
    now: VirtualTime,
    h: TcpHeader,
    payload: Seq<u8>,
)
    requires
        c.t.state == State::Established,
        c.acceptable(h, payload.len()),
        h.flag(TCP_SYN) && !h.flag(TCP_RST),
    ensures
        c.input::<U>(w, now, h, payload) == (
            Conn { t: Tcb { ack_pending: true, ..c.t }, ..c },
            w,
        ),
{
}

/// No ACK stays owed after a transmission.
pub proof fn law_owed_ack_leaves<M>(c: Conn, w: World<M>, now: VirtualTime)
    ensures
        !c.flush(w, now).0.t.ack_pending,
{
}

/// A retransmission doubles the timeout up to its limit, forgets the sample of
/// the round trip (Karn), and starts again from the first byte that was not
/// acknowledged. Into a closed window goes an empty segment with a sequence
/// number that is acknowledged already.
pub proof fn law_retransmission_goes_back<M>(c: Conn, w: World<M>, now: VirtualTime)
    requires
        c.t.state != State::SynReceived,
        c.t.state != State::SynSent,
    ensures
        ({
            let (d, w2) = c.retransmit(w, now);
            &&& d.t.rto == if c.t.rto * 2 <= RTO_MAX { (c.t.rto * 2) as u64 } else { RTO_MAX }
            &&& d.t.rtt_sample is None
            &&& d.t.snd_nxt == c.t.snd_una
            &&& d.tx == c.tx
            &&& c.t.snd_wnd == 0 && c.tx.len() > 0 ==> {
                &&& w2.out.len() == w.out.len() + 1
                &&& w2.out.last().seq == wsub(c.t.snd_una, 1)
                &&& w2.out.last().payload.len() == 0
            }
        }),
{
}

/// The SYN-ACK announces the largest segment and carries no data.
pub proof fn law_syn_ack_announces_the_mss<M>(c: Conn, w: World<M>, now: VirtualTime)
    ensures
        ({
            let s: Seg = c.send_syn(w, now, TCP_SYN | TCP_ACK).1.out.last();
            &&& s.seq == c.t.iss
            &&& s.ack == c.t.rcv_nxt
            &&& s.mss == Some(c.t.local_mss)
            &&& s.payload.len() == 0
        }),
{
    assert((0x02u8 | 0x10u8) & 0x02u8 != 0) by (bit_vector);
}

} // verus!
