//! What holds of a TCP connection over several calls.
use vstd::prelude::*;
use crate::bytes::min_len;
use crate::net::addr::{ConnId, VirtualTime};
use crate::net::events::{CloseReason, Direction, Event, Fact};
use crate::net::tcp::{before, count64, lemma_advance, max32, wadd, wsub, Conn, Seg, State, Tcb, Verdict, World, MAX_RETRIES, RTO_MAX, TX_CAPACITY};
use crate::net::upstream::{TcpRead, Upstream};
use crate::net::wire::{TcpHeader, TCP_ACK, TCP_FIN, TCP_PSH, TCP_RST, TCP_SYN};

verus! {

// ---- The transmit buffer --------------------------------------------------------

/// The connection with `data` of the upstream at the end of its buffer.
spec fn filled(c: Conn, data: Seq<u8>) -> Conn {
    Conn {
        t: Tcb { bytes_to_guest: count64(c.t.bytes_to_guest, data.len()), ..c.t },
        tx: c.tx + data,
        ..c
    }
}

/// What surrounds it after such a read.
spec fn filled_world<U: Upstream>(c: Conn, w: World<U::Model>, now: VirtualTime, n: usize) -> World<
    U::Model,
> {
    World {
        up: U::read_next(w.up, now, c.t.id, c.read_room()),
        log: w.log.push(
            Event {
                at: now,
                kind: Fact::TcpData { id: c.t.id, dir: Direction::ToGuest, len: n },
            },
        ),
        ..w
    }
}

/// However much the upstream offers, the transmit buffer stays within its
/// capacity.
pub proof fn law_fetch_stays_within_the_buffer<U: Upstream>(
    c: Conn,
    w: World<U::Model>,
    now: VirtualTime,
)
    requires
        c.tx.len() <= TX_CAPACITY,
    ensures
        c.fetch::<U>(w, now).0.tx.len() <= TX_CAPACITY,
        c.tx.is_prefix_of(c.fetch::<U>(w, now).0.tx),
    decreases c.tx_room(),
{
    if c.tx_room() > 0 {
        let id = c.t.id;
        let room = c.read_room();
        U::read_fits(w.up, now, id, room as usize);
        if let TcpRead::Data(n) = U::read_result(w.up, now, id, room) {
            let data = U::read_data(w.up, now, id, room);
            if n > 0 {
                law_fetch_stays_within_the_buffer::<U>(
                    filled(c, data),
                    filled_world::<U>(c, w, now, n),
                    now,
                );
            }
        }
    }
}

// ---- An early segment -----------------------------------------------------------

/// Everything that left since `start` acknowledges `r`, and an ACK of it has left
/// or is owed.
pub open spec fn acknowledged(r: u32, start: Seq<Seg>, c: Conn, out: Seq<Seg>) -> bool {
    &&& c.t.rcv_nxt == r
    &&& start.is_prefix_of(out)
    &&& forall|i: int| start.len() <= i < out.len() ==> (#[trigger] out[i]).ack == r
    &&& c.t.ack_pending || out.len() > start.len()
}

proof fn lemma_emit_acknowledges<M>(
    r: u32,
    start: Seq<Seg>,
    c: Conn,
    w: World<M>,
    seq: u32,
    flags: u8,
    payload: Seq<u8>,
)
    requires
        acknowledged(r, start, c, w.out),
    ensures
        acknowledged(r, start, c.emit(w, seq, flags, payload).0, c.emit(w, seq, flags, payload).1.out),
        c.emit(w, seq, flags, payload).1.out.len() > start.len(),
{
}

proof fn lemma_fetch_acknowledges<U: Upstream>(
    r: u32,
    start: Seq<Seg>,
    c: Conn,
    w: World<U::Model>,
    now: VirtualTime,
)
    requires
        acknowledged(r, start, c, w.out),
    ensures
        ({
            let (e, w2, v) = c.fetch::<U>(w, now);
            &&& acknowledged(r, start, e, w2.out)
            &&& v is Stop ==> w2.out.len() > start.len()
        }),
    decreases c.tx_room(),
{
    if c.tx_room() > 0 {
        let id = c.t.id;
        let room = c.read_room();
        let w2 = World { up: U::read_next(w.up, now, id, room), ..w };
        U::read_fits(w.up, now, id, room as usize);
        match U::read_result(w.up, now, id, room) {
            TcpRead::Data(n) => {
                let data = U::read_data(w.up, now, id, room);
                if n > 0 {
                    lemma_fetch_acknowledges::<U>(
                        r,
                        start,
                        filled(c, data),
                        filled_world::<U>(c, w, now, n),
                        now,
                    );
                }
            },
            TcpRead::Reset => {
                lemma_emit_acknowledges(r, start, c, w2, c.t.snd_max, TCP_RST | TCP_ACK, Seq::empty());
            },
            _ => {},
        }
    }
}

/// A segment that leaves is in flight.
proof fn lemma_flight_grows(c: Conn)
    ensures
        wsub(wadd(c.t.snd_nxt, c.next_len() as u32), c.t.snd_una) == c.t.in_flight()
            + c.next_len(),
{
    lemma_advance(c.t.snd_una, c.t.snd_nxt, c.next_len() as u32);
}

proof fn lemma_send_data_acknowledges<M>(
    r: u32,
    start: Seq<Seg>,
    c: Conn,
    w: World<M>,
    now: VirtualTime,
)
    requires
        acknowledged(r, start, c, w.out),
    ensures
        acknowledged(r, start, c.send_data(w, now).0, c.send_data(w, now).1.out),
    decreases c.tx.len() - c.t.in_flight(),
{
    if c.next_len() > 0 {
        let (d, w2) = c.send_next(w, now);
        lemma_flight_grows(c);
        assert(d.t.in_flight() == c.t.in_flight() + c.next_len());
        assert(acknowledged(r, start, d, w2.out));
        lemma_send_data_acknowledges(r, start, d, w2, now);
    }
}

proof fn lemma_flush_acknowledges<M>(
    r: u32,
    start: Seq<Seg>,
    c: Conn,
    w: World<M>,
    now: VirtualTime,
)
    requires
        acknowledged(r, start, c, w.out),
    ensures
        acknowledged(r, start, c.flush(w, now).0, c.flush(w, now).1.out),
        c.flush(w, now).1.out.len() > start.len(),
{
    if c.transmits() {
        lemma_send_data_acknowledges(r, start, c, w, now);
    }
}

/// A segment with data that comes too early is dropped: none of its bytes is
/// taken, logged or shown to the upstream, its FIN does not count, and the next
/// exchange answers with at least one segment, each of which acknowledges what
/// was expected before.
pub proof fn law_early_segment_is_answered<U: Upstream>(
    c: Conn,
    w: World<U::Model>,
    now: VirtualTime,
    h: TcpHeader,
    payload: Seq<u8>,
    up: U::Model,
    later: VirtualTime,
)
    requires
        c.wf(),
        c.t.state == State::Established,
        h.flag(TCP_ACK),
        !h.flag(TCP_RST),
        !h.flag(TCP_SYN),
        !before(c.t.snd_max, h.ack),
        0 < payload.len() <= 65_535,
        0 < wsub(h.seq, c.t.rcv_nxt) < c.rcv_wnd(),
    ensures
        ({
            let (d, w2) = c.input::<U>(w, now, h, payload);
            let (e, w3) = d.process::<U>(World { up, ..w2 }, later);
            &&& w2 == w
            &&& d.rx == c.rx
            &&& d.t.rcv_nxt == c.t.rcv_nxt
            &&& d.t.bytes_to_remote == c.t.bytes_to_remote
            &&& d.t.rx_fin == c.t.rx_fin
            &&& d.t.state == State::Established
            &&& w.out.is_prefix_of(w3.out)
            &&& w3.out.len() > w.out.len()
            &&& forall|i: int|
                w.out.len() <= i < w3.out.len() ==> (#[trigger] w3.out[i]).ack == c.t.rcv_nxt
        }),
{
    let (d, w2) = c.input::<U>(w, now, h, payload);
    lemma_early_input::<U>(c, w, now, h, payload);
    let r = c.t.rcv_nxt;
    let w4 = World { up, ..w2 };
    assert(acknowledged(r, w.out, d, w4.out));
    let (d1, w5) = d.deliver::<U>(w4, later);
    let d2 = d1.window_checked();
    assert(acknowledged(r, w.out, d2, w5.out));
    if d2.reads_upstream() {
        lemma_fetch_acknowledges::<U>(r, w.out, d2, w5, later);
        let (e, w6, v) = d2.fetch::<U>(w5, later);
        if v is GoOn {
            lemma_flush_acknowledges(r, w.out, e, w6, later);
        }
    } else {
        lemma_flush_acknowledges(r, w.out, d2, w5, later);
    }
}

/// What an early segment leaves.
proof fn lemma_early_input<U: Upstream>(
    c: Conn,
    w: World<U::Model>,
    now: VirtualTime,
    h: TcpHeader,
    payload: Seq<u8>,
)
    requires
        c.wf(),
        c.t.state == State::Established,
        h.flag(TCP_ACK),
        !h.flag(TCP_RST),
        !h.flag(TCP_SYN),
        !before(c.t.snd_max, h.ack),
        0 < payload.len() <= 65_535,
        0 < wsub(h.seq, c.t.rcv_nxt) < c.rcv_wnd(),
    ensures
        ({
            let (d, w2) = c.input::<U>(w, now, h, payload);
            &&& w2 == w
            &&& d.rx == c.rx
            &&& d.t.rcv_nxt == c.t.rcv_nxt
            &&& d.t.bytes_to_remote == c.t.bytes_to_remote
            &&& d.t.rx_fin == c.t.rx_fin
            &&& d.t.state == State::Established
            &&& d.t.ack_pending
        }),
{
    lemma_early_is_acceptable(c, h, payload);
    let (c2, w2) = c.ack_taken(w, now, h, payload.len());
    lemma_ack_keeps(c, w, now, h, payload.len());
    let c3 = c2.window_taken(h);
    assert(c3.takes_data());
    assert(c.input::<U>(w, now, h, payload) == c3.text_input(w, now, h, payload));
}

proof fn lemma_early_is_acceptable(c: Conn, h: TcpHeader, payload: Seq<u8>)
    requires
        c.wf(),
        !h.flag(TCP_SYN),
        0 < payload.len() <= 65_535,
        0 < wsub(h.seq, c.t.rcv_nxt) < c.rcv_wnd(),
    ensures
        before(c.t.rcv_nxt, h.seq),
        c.acceptable(h, payload.len()),
{
    reveal(wadd);
    reveal(wsub);
    let n = payload.len() + (if h.flag(TCP_FIN) { 1int } else { 0 });
    assert(Conn::seg_len(h, payload.len()) == n);
    assert(c.in_window(h.seq));
}

/// The acknowledgement of a segment with data leaves the receiving side alone.
proof fn lemma_ack_keeps<M>(c: Conn, w: World<M>, now: VirtualTime, h: TcpHeader, len: nat)
    requires
        len > 0,
    ensures
        ({
            let (d, w2) = c.ack_taken(w, now, h, len);
            &&& w2 == w
            &&& d.rx == c.rx
            &&& d.t.rcv_nxt == c.t.rcv_nxt
            &&& d.t.bytes_to_remote == c.t.bytes_to_remote
            &&& d.t.rx_fin == c.t.rx_fin
            &&& d.t.state == c.t.state
            &&& d.tx.len() <= c.tx.len()
        }),
{
    reveal(Conn::ack_taken);
    reveal(Tcb::rtt_updated);
}

// ---- Retransmissions ------------------------------------------------------------

/// In a state that `calm` allows the upstream has nothing to read, and a read
/// leads to such a state again.
pub open spec fn calm_at<U: Upstream>(
    calm: spec_fn(U::Model) -> bool,
    id: ConnId,
    m: U::Model,
    now: VirtualTime,
    room: nat,
) -> bool {
    calm(m) ==> U::read_result(m, now, id, room) == TcpRead::WouldBlock && calm(
        U::read_next(m, now, id, room),
    )
}

/// An upstream that has nothing for the guest as long as it is only asked.
pub open spec fn stays_calm<U: Upstream>(calm: spec_fn(U::Model) -> bool, id: ConnId) -> bool {
    forall|m: U::Model, now: VirtualTime, room: nat| #[trigger] calm_at::<U>(calm, id, m, now, room)
}

/// An open connection that waits for the acknowledgement of one segment: all of
/// its buffer, sent and not acknowledged, and nothing else to do.
pub open spec fn awaiting(c: Conn) -> bool {
    &&& c.wf()
    &&& c.t.state == State::Established
    &&& 1 <= c.tx.len() <= c.t.mss
    &&& c.t.snd_max == wadd(c.t.snd_una, c.tx.len() as u32)
    &&& c.t.snd_wnd > 0
    &&& c.t.fin_seq is None
    &&& !c.t.tx_eof
    &&& c.rx.len() == 0
    &&& !c.t.rx_fin
    &&& c.t.rtx_deadline is Some
}

/// The timer and the exchange at the instant that the connection asked for.
pub open spec fn round<U: Upstream>(c: Conn, w: World<U::Model>) -> (Conn, World<U::Model>) {
    let now = c.next_deadline()->0;
    let (d, w1) = c.on_timer::<U>(w, now);
    d.process::<U>(w1, now)
}

/// `k` such rounds.
pub open spec fn rounds<U: Upstream>(c: Conn, w: World<U::Model>, k: nat) -> (
    Conn,
    World<U::Model>,
)
    decreases k,
{
    if k == 0 {
        (c, w)
    } else {
        let (d, w1) = rounds::<U>(c, w, (k - 1) as nat);
        round::<U>(d, w1)
    }
}

/// Bytes that a retransmission repeats: all that was sent, as far as the guest's
/// window allows.
pub open spec fn repeated_len(c: Conn) -> nat {
    min_len(c.tx.len(), c.t.snd_wnd as nat)
}

/// The segment that a retransmission repeats.
pub open spec fn repeated(c: Conn) -> Seg {
    let n = repeated_len(c);
    let flags = if n == c.tx.len() { TCP_ACK | TCP_PSH } else { TCP_ACK };
    c.segment(c.t.snd_una, flags, c.tx.take(n as int))
}

/// The timeout after `k` doublings.
pub open spec fn doubled(rto: u64, k: nat) -> u64
    decreases k,
{
    if k == 0 {
        rto
    } else {
        let r = doubled(rto, (k - 1) as nat);
        if r * 2 <= RTO_MAX { (r * 2) as u64 } else { RTO_MAX }
    }
}

/// The two connections await the same acknowledgement.
pub open spec fn same_wait(c: Conn, d: Conn) -> bool {
    &&& d.tx == c.tx
    &&& d.rx == c.rx
    &&& d.t.id == c.t.id
    &&& d.t.mss == c.t.mss
    &&& d.t.local_mss == c.t.local_mss
    &&& d.t.snd_una == c.t.snd_una
    &&& d.t.snd_max == c.t.snd_max
    &&& d.t.snd_wnd == c.t.snd_wnd
    &&& d.t.rcv_nxt == c.t.rcv_nxt
    &&& d.t.bytes_to_remote == c.t.bytes_to_remote
    &&& d.t.bytes_to_guest == c.t.bytes_to_guest
}

/// The connection after the timer has gone back to the first byte.
spec fn gone_back(c: Conn, now: VirtualTime) -> Conn {
    let rto = doubled(c.t.rto, 1);
    Conn {
        t: Tcb {
            retries: (c.t.retries + 1) as u32,
            rto,
            rtt_sample: None,
            ssthresh: max32(wsub(c.t.snd_max, c.t.snd_una) / 2, (2 * c.t.mss) as u32),
            cwnd: c.t.mss,
            snd_nxt: c.t.snd_una,
            rtx_deadline: Some(now.later(rto)),
            ..c.t
        },
        ..c
    }
}

proof fn lemma_timer_goes_back<U: Upstream>(c: Conn, w: World<U::Model>)
    requires
        awaiting(c),
        c.t.retries < MAX_RETRIES,
    ensures
        c.on_timer::<U>(w, c.next_deadline()->0) == (gone_back(c, c.next_deadline()->0), w),
{
    let now = c.next_deadline()->0;
    assert(c.t.snd_una != c.t.snd_max) by {
        reveal(wadd);
    }
    reveal_with_fuel(doubled, 2);
    assert(c.on_timer::<U>(w, now).0 == gone_back(c, now));
}

/// Where a segment of `n` of the `len` bytes in flight ends.
proof fn lemma_segment_end(una: u32, len: u32, n: u32)
    requires
        1 <= len <= 65_535,
        n <= len,
    ensures
        wsub(una, una) == 0,
        wsub(wadd(una, n), una) == n,
        una != wadd(una, len),
        !before(wadd(una, len), wadd(una, n)),
{
    reveal(wadd);
    reveal(wsub);
}

/// What goes out again.
proof fn lemma_repeats<M>(c: Conn, w: World<M>, now: VirtualTime)
    requires
        awaiting(c),
        c.t.snd_nxt == c.t.snd_una,
        c.t.cwnd == c.t.mss,
        c.t.rtt_sample is None,
    ensures
        ({
            let (d, w2) = c.flush(w, now);
            &&& w2 == (World { out: w.out.push(repeated(c)), ..w })
            &&& d == (Conn {
                t: Tcb {
                    snd_nxt: wadd(c.t.snd_una, repeated_len(c) as u32),
                    ..c.announced().t
                },
                ..c
            })
        }),
{
    let n = repeated_len(c);
    let len = c.tx.len();
    lemma_segment_end(c.t.snd_una, len as u32, n as u32);
    assert(c.t.in_flight() == 0);
    assert(c.next_len() == n);
    let (d, w2) = c.send_next(w, now);
    let end = wadd(c.t.snd_una, n as u32);
    assert(d.t.snd_nxt == end);
    assert(d.t.in_flight() == n);
    assert(!before(c.t.snd_max, end));
    assert(d.next_len() == 0);
    assert(c.tx.subrange(0, n as int) =~= c.tx.take(n as int));
    assert(d.send_data(w2, now) == (d, w2));
    assert(c.send_data(w, now) == (d, w2));
    assert(w2.out == w.out.push(repeated(c)));
    assert(c.transmit(w, now) == (d, w2));
}

/// One timeout: the same bytes go out again at the same sequence number, and the
/// wait for the next is twice as long.
pub proof fn law_timeout_repeats<U: Upstream>(
    c: Conn,
    w: World<U::Model>,
    calm: spec_fn(U::Model) -> bool,
)
    requires
        awaiting(c),
        c.t.retries < MAX_RETRIES,
        stays_calm::<U>(calm, c.t.id),
        calm(w.up),
    ensures
        ({
            let now = c.next_deadline()->0;
            let (d, w2) = round::<U>(c, w);
            &&& awaiting(d)
            &&& same_wait(c, d)
            &&& d.t.retries == c.t.retries + 1
            &&& d.t.rto == doubled(c.t.rto, 1)
            &&& d.next_deadline() == Some(now.later(d.t.rto))
            &&& w2.out == w.out.push(repeated(c))
            &&& w2.log == w.log
            &&& calm(w2.up)
        }),
{
    let now = c.next_deadline()->0;
    let b = gone_back(c, now);
    lemma_timer_goes_back::<U>(c, w);
    reveal_with_fuel(doubled, 2);
    let e = b.window_checked();
    assert(b.deliver::<U>(w, now) == (b, w));
    assert(calm_at::<U>(calm, c.t.id, w.up, now, e.read_room()));
    let w3 = World { up: U::read_next(w.up, now, c.t.id, e.read_room()), ..w };
    assert(e.fetch::<U>(w, now) == (e, w3, Verdict::GoOn));
    lemma_repeats(e, w3, now);
    assert(repeated(e) == repeated(c));
}

/// After `k` timeouts without a word from the guest the same bytes have gone out
/// `k` times more, each after a wait twice as long as the one before it (at most
/// [`RTO_MAX`]).
pub proof fn law_retransmissions_repeat<U: Upstream>(
    c: Conn,
    w: World<U::Model>,
    calm: spec_fn(U::Model) -> bool,
    k: nat,
)
    requires
        awaiting(c),
        c.t.retries == 0,
        k <= MAX_RETRIES,
        stays_calm::<U>(calm, c.t.id),
        calm(w.up),
    ensures
        ({
            let (d, w2) = rounds::<U>(c, w, k);
            &&& awaiting(d)
            &&& same_wait(c, d)
            &&& d.t.retries == k
            &&& d.t.rto == doubled(c.t.rto, k)
            &&& k > 0 ==> d.next_deadline() == Some(
                rounds::<U>(c, w, (k - 1) as nat).0.next_deadline()->0.later(doubled(c.t.rto, k)),
            )
            &&& w2.out == w.out + Seq::new(k, |i: int| repeated(c))
            &&& w2.log == w.log
            &&& calm(w2.up)
        }),
    decreases k,
{
    if k == 0 {
        assert(w.out + Seq::new(0, |i: int| repeated(c)) =~= w.out);
    } else {
        law_retransmissions_repeat::<U>(c, w, calm, (k - 1) as nat);
        let (d, w1) = rounds::<U>(c, w, (k - 1) as nat);
        law_timeout_repeats::<U>(d, w1, calm);
        reveal_with_fuel(doubled, 2);
        assert(repeated(d) == repeated(c));
        assert((w.out + Seq::new((k - 1) as nat, |i: int| repeated(c))).push(repeated(c)) =~= w.out
            + Seq::new(k, |i: int| repeated(c)));
    }
}

/// One timeout more than [`MAX_RETRIES`] ends the connection: an RST with the
/// sequence number after the last byte sent, the reason noted, the upstream told.
pub proof fn law_retransmissions_end_in_a_reset<U: Upstream>(
    c: Conn,
    w: World<U::Model>,
    calm: spec_fn(U::Model) -> bool,
)
    requires
        awaiting(c),
        c.t.retries == 0,
        stays_calm::<U>(calm, c.t.id),
        calm(w.up),
    ensures
        ({
            let (last, w1) = rounds::<U>(c, w, MAX_RETRIES as nat);
            let now = last.next_deadline()->0;
            let (d, w2) = rounds::<U>(c, w, (MAX_RETRIES + 1) as nat);
            &&& w2.out == w1.out.push(c.segment(c.t.snd_max, TCP_RST | TCP_ACK, Seq::empty()))
            &&& d.t.state == State::Closed
            &&& d.t.close_reason == Some(CloseReason::Timeout)
            &&& w2.up == U::closed(w1.up, now, c.t.id, true)
            &&& w2.log == w1.log.push(
                Event {
                    at: now,
                    kind: Fact::TcpClosed {
                        id: c.t.id,
                        reason: CloseReason::Timeout,
                        bytes_to_remote: c.t.bytes_to_remote,
                        bytes_to_guest: c.t.bytes_to_guest,
                    },
                },
            )
        }),
{
    law_retransmissions_repeat::<U>(c, w, calm, MAX_RETRIES as nat);
    let (last, w1) = rounds::<U>(c, w, MAX_RETRIES as nat);
    assert(last.t.snd_una != last.t.snd_max) by {
        reveal(wadd);
    }
    assert(rounds::<U>(c, w, (MAX_RETRIES + 1) as nat) == round::<U>(last, w1));
}

} // verus!
