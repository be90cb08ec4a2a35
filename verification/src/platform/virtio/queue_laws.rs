//! What holds of every split queue.
use vstd::prelude::*;
use crate::bytes::{le16_bytes, le32_bytes, lemma_le16, lemma_le32};
use crate::platform::virtio::queue::{desc_at, followed, wadd16, wsub16, Buf, Chain, Desc, QueueError, Virtqueue, DESC_F_INDIRECT, DESC_F_NEXT, DESC_F_WRITE, MAX_QUEUE_SIZE};
use crate::platform::virtio::ram::{bytes_at, fetched16, fetched32, holds, law_ram_reads_what_was_written, placed, stored, Mem, RamError};

verus! {

proof fn lemma_followed_bound(m: Mem, table: u64, n: u16, d: Desc, visited: int, c: Chain)
    requires
        0 <= visited,
    ensures
        followed(m, table, n, d, visited, c) matches Ok(r) ==> {
            &&& r.head == c.head
            &&& c.readable.len() + c.writable.len() < r.readable.len() + r.writable.len()
                <= c.readable.len() + c.writable.len() + n - visited
        },
    decreases n - visited,
{
    if followed(m, table, n, d, visited, c) is Ok && d.flag(DESC_F_NEXT) {
        let buf = Buf { addr: d.addr, len: d.len };
        let c2 = if d.flag(DESC_F_WRITE) {
            Chain { writable: c.writable.push(buf), ..c }
        } else {
            Chain { readable: c.readable.push(buf), ..c }
        };
        lemma_followed_bound(m, table, n, desc_at(m, table, d.next)->Ok_0, visited + 1, c2);
    }
}

/// The table that the chain with this head runs through has this many entries.
pub open spec fn table_len(q: Virtqueue, m: Mem, head: u16) -> int {
    match desc_at(m, q.desc, head) {
        Ok(d) => if d.flag(DESC_F_INDIRECT) {
            (d.len / 16) as int
        } else {
            q.size as int
        },
        Err(_) => 0,
    }
}

/// A chain starts inside the table, has a buffer, and visits no more descriptors
/// than its table has: there are no loops.
pub proof fn law_chain_fits_its_table(q: Virtqueue, m: Mem, head: u16)
    ensures
        q.chain_at(m, head) matches Ok(c) ==> {
            &&& head < q.size
            &&& c.head == head
            &&& 0 < c.readable.len() + c.writable.len() <= table_len(q, m, head)
        },
{
    reveal(Virtqueue::chain_at);
    if let Ok(d) = desc_at(m, q.desc, head) {
        let empty = Chain { head, readable: Seq::empty(), writable: Seq::empty() };
        if !d.flag(DESC_F_INDIRECT) {
            lemma_followed_bound(m, q.desc, q.size, d, 0, empty);
        } else if let Ok(d2) = desc_at(m, d.addr, 0) {
            lemma_followed_bound(m, d.addr, (d.len / 16) as u16, d2, 0, empty);
        }
    }
}

proof fn lemma_endless(m: Mem, table: u64, n: u16, d: Desc, visited: int, c: Chain)
    requires
        0 <= visited,
        d.flag(DESC_F_NEXT),
        forall|i: u16| i < n ==> (#[trigger] desc_at(m, table, i) matches Ok(e) ==> e.flag(DESC_F_NEXT)),
    ensures
        followed(m, table, n, d, visited, c) is Err,
    decreases n - visited,
{
    if visited < n && d.next < n {
        if let Ok(d2) = desc_at(m, table, d.next) {
            let buf = Buf { addr: d.addr, len: d.len };
            let c2 = if d.flag(DESC_F_WRITE) {
                Chain { writable: c.writable.push(buf), ..c }
            } else {
                Chain { readable: c.readable.push(buf), ..c }
            };
            lemma_endless(m, table, n, d2, visited + 1, c2);
        }
    }
}

/// A chain that never ends is refused.
pub proof fn law_endless_chain_is_refused(q: Virtqueue, m: Mem, head: u16)
    requires
        forall|i: u16|
            i < q.size ==> (#[trigger] desc_at(m, q.desc, i) matches Ok(d) ==> d.flag(DESC_F_NEXT)
                && !d.flag(DESC_F_INDIRECT)),
    ensures
        q.chain_at(m, head) is Err,
{
    reveal(Virtqueue::chain_at);
    if head < q.size {
        if let Ok(d) = desc_at(m, q.desc, head) {
            let empty = Chain { head, readable: Seq::empty(), writable: Seq::empty() };
            lemma_endless(m, q.desc, q.size, d, 0, empty);
        }
    }
}

/// An indirect table is followed only if it was negotiated.
pub proof fn law_indirect_needs_negotiation(q: Virtqueue, m: Mem, head: u16)
    requires
        !q.indirect,
        head < q.size,
        desc_at(m, q.desc, head) matches Ok(d) && d.flag(DESC_F_INDIRECT),
    ensures
        q.chain_at(m, head) == Err::<Chain, QueueError>(QueueError::IndirectNotNegotiated),
{
    reveal(Virtqueue::chain_at);
}

/// A driver that publishes more than the queue holds is refused, and nothing is
/// taken.
pub proof fn law_overrun_is_refused(q: Virtqueue, m: Mem, idx: u16)
    requires
        q.ready,
        fetched16(m, q.driver + 2) == Ok::<u16, RamError>(idx),
        wsub16(idx, q.last_avail) > q.size,
    ensures
        q.popped(m) == (
            q,
            m,
            Err::<Option<Chain>, QueueError>(
                QueueError::AvailIdx { last: q.last_avail, avail: idx },
            ),
        ),
{
    reveal(Virtqueue::popped);
}

/// A chain that is put back is the next one again.
pub proof fn law_rewind_undoes_pop(q: Virtqueue, m: Mem)
    ensures
        q.popped(m).2 matches Ok(Some(_)) ==> q.popped(m).0.rewound(1) == q,
{
    reveal(Virtqueue::popped);
}

/// `n` chains are taken, one after another: the queue and the memory after them,
/// and the chains. `None` if one of them is missing or bad.
pub open spec fn taken(q: Virtqueue, m: Mem, n: nat) -> Option<(Virtqueue, Mem, Seq<Chain>)>
    decreases n,
{
    if n == 0 {
        Some((q, m, Seq::empty()))
    } else {
        match taken(q, m, (n - 1) as nat) {
            None => None,
            Some((q1, m1, chains)) => {
                let (q2, m2, next) = q1.popped(m1);
                match next {
                    Ok(Some(c)) => Some((q2, m2, chains.push(c))),
                    _ => None,
                }
            },
        }
    }
}

proof fn lemma_event_again(q: Virtqueue, m: Mem, a: u16, b: u16)
    requires
        q.event_idx,
    ensures
        ({
            let first = Virtqueue { last_avail: a, ..q }.event_published(m);
            let second = Virtqueue { last_avail: b, ..q };
            first.1 is Ok ==> second.event_published(first.0) == second.event_published(m)
                && second.event_published(m).1 is Ok
        }),
{
    let at = q.device + (4 + 8 * q.size);
    let m1 = stored(m, at, le16_bytes(a));
    if holds(m, at, 2) {
        assert(holds(m1, at, 2));
        assert(stored(m1, at, le16_bytes(b)) =~= stored(m, at, le16_bytes(b)));
    }
}

proof fn lemma_pop_shape(q: Virtqueue, m: Mem)
    ensures
        q.popped(m).2 matches Ok(Some(_)) ==> {
            &&& q.popped(m).0 == (Virtqueue { last_avail: wadd16(q.last_avail, 1), ..q })
            &&& q.popped(m).0.event_published(m) == (q.popped(m).1, Ok::<(), RamError>(()))
        },
{
    reveal(Virtqueue::popped);
}

proof fn lemma_taken(q: Virtqueue, m: Mem, n: nat)
    requires
        n <= 0xffff,
    ensures
        taken(q, m, n) matches Some((q2, m2, chains)) ==> {
            &&& chains.len() == n
            &&& q2 == (Virtqueue { last_avail: wadd16(q.last_avail, n as u16), ..q })
            &&& if n == 0 || !q.event_idx {
                m2 == m
            } else {
                q2.event_published(m) == (m2, Ok::<(), RamError>(()))
            }
        },
    decreases n,
{
    if n > 0 {
        lemma_taken(q, m, (n - 1) as nat);
        if let Some((q1, m1, chains)) = taken(q, m, (n - 1) as nat) {
            let (q2, m2, next) = q1.popped(m1);
            lemma_pop_shape(q1, m1);
            if q.event_idx && n > 1 {
                lemma_event_again(q, m, q1.last_avail, q2.last_avail);
            }
        }
    }
}

/// However many chains were taken, putting them back leaves the queue as it was,
/// and the memory too, but that with EVENT_IDX the driver is asked for a
/// notification at the place where the queue stands.
pub proof fn law_rewind_undoes_pops(q: Virtqueue, m: Mem, n: u16)
    requires
        n > 0,
    ensures
        taken(q, m, n as nat) matches Some((q2, m2, chains)) ==> {
            &&& chains.len() == n
            &&& q2.rewound(n) == q
            &&& q2.rewound(n).event_published(m2) == q.event_published(m)
            &&& q.event_published(m).1 is Ok
            &&& !q.event_idx ==> q.event_published(m).0 == m
        },
{
    lemma_taken(q, m, n as nat);
    if let Some((q2, m2, chains)) = taken(q, m, n as nat) {
        if q.event_idx {
            lemma_event_again(q, m, q2.last_avail, q.last_avail);
        }
    }
}

/// Where the notification that the driver is asked for stands.
pub open spec fn event_at(q: Virtqueue) -> int {
    q.device + (4 + 8 * q.size)
}

/// `n` bytes at `a` do not hold the notification that the driver is asked for.
pub open spec fn clear_of_event(q: Virtqueue, a: int, n: int) -> bool {
    a + n <= event_at(q) || event_at(q) + 2 <= a
}

/// What the queue reads and the notification that it asks for are apart: the
/// table, the available ring and the indirect tables do not hold it.
pub open spec fn areas_apart(q: Virtqueue, m: Mem) -> bool {
    &&& clear_of_event(q, q.desc as int, 16 * q.size)
    &&& clear_of_event(q, q.driver as int, 4 + 2 * q.size)
    &&& forall|i: u16|
        i < q.size ==> (#[trigger] desc_at(m, q.desc, i) matches Ok(d) ==> d.flag(DESC_F_INDIRECT)
            ==> clear_of_event(q, d.addr as int, d.len as int))
}

/// The memories differ at most in the notification that the driver is asked for.
spec fn alike(q: Virtqueue, a: Mem, b: Mem) -> bool {
    &&& a.dom() == b.dom()
    &&& forall|k: int|
        #![trigger a[k]]
        #![trigger b[k]]
        a.dom().contains(k) && !(event_at(q) <= k < event_at(q) + 2) ==> a[k] == b[k]
}

proof fn lemma_alike_read(q: Virtqueue, a: Mem, b: Mem, at: int, n: nat)
    requires
        alike(q, a, b),
        clear_of_event(q, at, n as int),
    ensures
        holds(a, at, n) == holds(b, at, n),
        holds(a, at, n) ==> bytes_at(a, at, n) == bytes_at(b, at, n),
{
    if holds(a, at, n) {
        assert(bytes_at(a, at, n) =~= bytes_at(b, at, n));
    }
}

proof fn lemma_alike_desc(q: Virtqueue, a: Mem, b: Mem, table: u64, n: int, i: u16)
    requires
        alike(q, a, b),
        clear_of_event(q, table as int, 16 * n),
        i < n,
    ensures
        desc_at(a, table, i) == desc_at(b, table, i),
{
    lemma_alike_read(q, a, b, table + 16 * i, 16);
}

proof fn lemma_alike_followed(
    q: Virtqueue,
    a: Mem,
    b: Mem,
    table: u64,
    n: u16,
    d: Desc,
    visited: int,
    c: Chain,
)
    requires
        alike(q, a, b),
        clear_of_event(q, table as int, 16 * n),
    ensures
        followed(a, table, n, d, visited, c) == followed(b, table, n, d, visited, c),
    decreases n - visited,
{
    if visited < n && d.flag(DESC_F_NEXT) && d.next < n {
        lemma_alike_desc(q, a, b, table, n as int, d.next);
        if let Ok(d2) = desc_at(a, table, d.next) {
            let buf = Buf { addr: d.addr, len: d.len };
            let c2 = if d.flag(DESC_F_WRITE) {
                Chain { writable: c.writable.push(buf), ..c }
            } else {
                Chain { readable: c.readable.push(buf), ..c }
            };
            lemma_alike_followed(q, a, b, table, n, d2, visited + 1, c2);
        }
    }
}

proof fn lemma_alike_chain(q: Virtqueue, a: Mem, b: Mem, head: u16)
    requires
        alike(q, a, b),
        areas_apart(q, a),
    ensures
        q.chain_at(a, head) == q.chain_at(b, head),
{
    reveal(Virtqueue::chain_at);
    if head < q.size {
        lemma_alike_desc(q, a, b, q.desc, q.size as int, head);
        if let Ok(d) = desc_at(a, q.desc, head) {
            let empty = Chain { head, readable: Seq::empty(), writable: Seq::empty() };
            if !d.flag(DESC_F_INDIRECT) {
                lemma_alike_followed(q, a, b, q.desc, q.size, d, 0, empty);
            } else if d.len != 0 && d.len % 16 == 0 && d.len / 16 <= MAX_QUEUE_SIZE {
                let n = (d.len / 16) as u16;
                assert(16 * n == d.len);
                lemma_alike_desc(q, a, b, d.addr, n as int, 0);
                if let Ok(d2) = desc_at(a, d.addr, 0) {
                    lemma_alike_followed(q, a, b, d.addr, n, d2, 0, empty);
                }
            }
        }
    }
}

proof fn lemma_alike_event(q: Virtqueue, a: Mem, b: Mem)
    requires
        alike(q, a, b),
        q.event_idx,
    ensures
        q.event_published(a).1 is Ok ==> q.event_published(a) == q.event_published(b) && alike(
            q,
            a,
            q.event_published(a).0,
        ),
{
    let at = event_at(q);
    let data = le16_bytes(q.last_avail);
    assert(data.len() == 2);
    assert(holds(a, at, 2) == holds(b, at, 2));
    let after = stored(a, at, data);
    assert(after =~= stored(b, at, data));
    assert(after.dom() =~= a.dom());
}

proof fn lemma_alike_pop(q: Virtqueue, a: Mem, b: Mem)
    requires
        alike(q, a, b),
        areas_apart(q, a),
        q.event_idx,
    ensures
        q.waiting(a) == q.waiting(b),
        q.popped(a).2 matches Ok(Some(_)) ==> q.popped(b) == q.popped(a),
{
    reveal(Virtqueue::popped);
    lemma_alike_read(q, a, b, q.driver + 2, 2);
    if q.popped(a).2 matches Ok(Some(c)) {
        let at = q.driver + (4 + 2 * (q.last_avail % q.size));
        let head = fetched16(a, at)->Ok_0;
        law_chain_fits_its_table(q, a, head);
        lemma_alike_read(q, a, b, at, 2);
        lemma_alike_chain(q, a, b, head);
        let q2 = Virtqueue { last_avail: wadd16(q.last_avail, 1), ..q };
        assert(alike(q2, a, b));
        lemma_alike_event(q2, a, b);
    }
}

proof fn lemma_areas_alike(q: Virtqueue, a: Mem, b: Mem)
    requires
        alike(q, a, b),
        areas_apart(q, a),
    ensures
        areas_apart(q, b),
{
    assert forall|i: u16|
        i < q.size && #[trigger] desc_at(b, q.desc, i) is Ok && desc_at(b, q.desc, i)->Ok_0.flag(
            DESC_F_INDIRECT,
        ) implies clear_of_event(
        q,
        desc_at(b, q.desc, i)->Ok_0.addr as int,
        desc_at(b, q.desc, i)->Ok_0.len as int,
    ) by {
        lemma_alike_desc(q, a, b, q.desc, q.size as int, i);
        assert(desc_at(a, q.desc, i) is Ok);
    }
}

proof fn lemma_taken_again(q: Virtqueue, a: Mem, b: Mem, n: nat)
    requires
        n <= 0xffff,
        alike(q, a, b),
        areas_apart(q, a),
        q.event_idx,
    ensures
        taken(q, a, n) matches Some((q2, m2, chains)) ==> {
            &&& taken(q, b, n) matches Some((q3, m3, again)) && q3 == q2 && again == chains && (n > 0
                ==> m3 == m2) && alike(q, m2, m3)
            &&& alike(q, a, m2)
        },
    decreases n,
{
    if n > 0 {
        lemma_taken_again(q, a, b, (n - 1) as nat);
        lemma_taken(q, a, (n - 1) as nat);
        if let Some((q1, a1, chains)) = taken(q, a, (n - 1) as nat) {
            if let Some((_, b1, _)) = taken(q, b, (n - 1) as nat) {
                lemma_areas_alike(q, a, a1);
                assert(areas_apart(q1, a1));
                assert(alike(q1, a1, b1));
                lemma_alike_pop(q1, a1, b1);
                lemma_pop_shape(q1, a1);
                let q2 = q1.popped(a1).0;
                if q1.popped(a1).2 matches Ok(Some(_)) {
                    assert(alike(q2, a1, a1));
                    lemma_alike_event(q2, a1, a1);
                }
            }
        }
    }
}

/// However many chains were taken and put back, the same number waits again, and
/// the same chains come again in the same order. With EVENT_IDX this asks that
/// what the queue reads and the notification that it asks for are apart.
pub proof fn law_same_chains_come_again(q: Virtqueue, m: Mem, n: u16)
    requires
        q.event_idx ==> areas_apart(q, m),
    ensures
        taken(q, m, n as nat) matches Some((q2, m2, chains)) ==> {
            let (m3, r) = q2.rewound(n).event_published(m2);
            &&& q2.rewound(n) == q
            &&& r is Ok ==> {
                &&& q.waiting(m3) == q.waiting(m)
                &&& taken(q, m3, n as nat) matches Some((q4, m4, again)) && again == chains && q4
                    == q2 && (n > 0 ==> m4 == m2)
            }
        },
{
    lemma_taken(q, m, n as nat);
    if let Some((q2, m2, chains)) = taken(q, m, n as nat) {
        let (m3, r) = q2.rewound(n).event_published(m2);
        if q.event_idx && r is Ok {
            assert(alike(q, m, m));
            lemma_taken_again(q, m, m, n as nat);
            assert(alike(q, m2, m2));
            lemma_alike_event(q, m2, m2);
            assert(alike(q, m, m3));
            lemma_alike_pop(q, m, m3);
            lemma_taken_again(q, m, m3, n as nat);
        }
    }
}

/// Chains are taken in the order in which the driver made them available: the
/// one at the next place of the ring, one at a time, and as long as one waits.
pub proof fn law_chains_are_taken_in_order(q: Virtqueue, m: Mem)
    requires
        q.wf(),
    ensures
        q.popped(m).2 matches Ok(Some(c)) ==> {
            &&& q.popped(m).0.last_avail == wadd16(q.last_avail, 1)
            &&& fetched16(m, q.driver + (4 + 2 * (q.last_avail % q.size))) == Ok::<u16, RamError>(
                c.head,
            )
            &&& q.waiting(m) matches Ok(n) && n > 0
        },
        q.popped(m).2 == Ok::<Option<Chain>, QueueError>(None) ==> q.waiting(m) == Ok::<
            u16,
            QueueError,
        >(0),
        q.popped(m).0.size == q.size,
        q.popped(m).0.used_idx == q.used_idx,
{
    reveal(Virtqueue::popped);
    if let Ok(head) = fetched16(m, q.driver + (4 + 2 * (q.last_avail % q.size))) {
        law_chain_fits_its_table(q, m, head);
    }
}

/// A chain that was returned stands in the used ring, with its length, at the
/// place that the driver looks at next, and the index says so.
pub proof fn law_used_element_is_visible(q: Virtqueue, m: Mem, head: u16, len: u32)
    requires
        q.wf() && q.size > 0,
        q.returned(m, head, len).2 is Ok,
    ensures
        ({
            let (q2, m2, _) = q.returned(m, head, len);
            let at = q.device + (4 + 8 * (q.used_idx % q.size));
            &&& q2 == (Virtqueue { used_idx: wadd16(q.used_idx, 1), ..q })
            &&& fetched32(m2, at) == Ok::<u32, RamError>(head as u32)
            &&& fetched32(m2, at + 4) == Ok::<u32, RamError>(len)
            &&& fetched16(m2, q.device + 2) == Ok::<u16, RamError>(q2.used_idx)
        }),
{
    reveal(Virtqueue::returned);
    let at = q.device + (4 + 8 * (q.used_idx % q.size));
    let (m1, _) = placed(m, at, le32_bytes(head as u32));
    let (m2, _) = placed(m1, at + 4, le32_bytes(len));
    let next = wadd16(q.used_idx, 1);
    let m3 = stored(m2, q.device + 2, le16_bytes(next));
    lemma_le32(head as u32);
    lemma_le32(len);
    lemma_le16(next);
    law_ram_reads_what_was_written(m, at, le32_bytes(head as u32), at + 4, 4);
    law_ram_reads_what_was_written(m, at, le32_bytes(head as u32), at, 4);
    law_ram_reads_what_was_written(m1, at + 4, le32_bytes(len), at, 4);
    law_ram_reads_what_was_written(m1, at + 4, le32_bytes(len), at + 4, 4);
    law_ram_reads_what_was_written(m2, q.device + 2, le16_bytes(next), at, 4);
    law_ram_reads_what_was_written(m2, q.device + 2, le16_bytes(next), at + 4, 4);
    law_ram_reads_what_was_written(m2, q.device + 2, le16_bytes(next), q.device + 2, 2);
    assert(bytes_at(m3, at, 4) == le32_bytes(head as u32));
    assert(bytes_at(m3, at + 4, 4) == le32_bytes(len));
    assert(bytes_at(m3, q.device + 2, 2) == le16_bytes(next));
}

/// The driver is told of a returned chain at most once.
pub proof fn law_notice_comes_once(q: Virtqueue, m: Mem, m2: Mem)
    ensures
        q.notice(m).0.notice(m2) == (q.notice(m).0, Ok::<bool, RamError>(false)),
{
}

} // verus!
