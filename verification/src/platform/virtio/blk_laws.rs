//! What holds of every block device.
use vstd::prelude::*;
use crate::bytes::{min_len, patched};
use crate::platform::virtio::blk::{blk_handled, blk_loaded, blk_locked, blk_fits, blk_replied, blk_served, blk_stored, blk_transfer, transfer_reply, Blk, Outcome, Reply, Transfer, S_IOERR, S_UNSUPP, T_FLUSH, T_GET_ID, T_IN, T_OUT};
use crate::platform::virtio::disk::{in_range, BlockBackend, MemBackend, Platter};
use crate::platform::virtio::queue::{gathered, lemma_gathered_len, scattered, total, Buf, Chain, QueueError, Virtqueue};
use crate::platform::virtio::ram::{bytes_at, holds, stored, Mem, RamError};

verus! {

/// Two pieces of a list of buffers, one after the other, are one piece.
pub proof fn lemma_gathered_join(m: Mem, bufs: Seq<Buf>, o: int, a: int, b: int)
    requires
        0 <= o,
        0 <= a,
        0 <= b,
        total(bufs) >= o + a + b,
        gathered(m, bufs, o, a) is Ok,
        gathered(m, bufs, o + a, b) is Ok,
    ensures
        gathered(m, bufs, o, a + b) == Ok::<Seq<u8>, RamError>(
            gathered(m, bufs, o, a)->Ok_0 + gathered(m, bufs, o + a, b)->Ok_0,
        ),
    decreases bufs.len(),
{
    reveal_with_fuel(gathered, 2);
    let x = gathered(m, bufs, o, a)->Ok_0;
    let y = gathered(m, bufs, o + a, b)->Ok_0;
    if bufs.len() == 0 {
        assert(x + y =~= Seq::<u8>::empty());
    } else if a == 0 {
        assert(x =~= Seq::<u8>::empty());
        assert(x + y =~= y);
    } else if b == 0 {
        assert(x + y =~= x);
    } else if o >= bufs[0].len {
        lemma_gathered_join(m, bufs.skip(1), o - bufs[0].len, a, b);
    } else {
        let at = bufs[0].addr + o;
        let l = bufs[0].len - o;
        if a + b <= l {
            assert(holds(m, at, (a + b) as nat)) by {
                assert forall|k: int| at <= k < at + a + b implies #[trigger] m.dom().contains(k) by {
                    if k < at + a {
                        assert(holds(m, at, a as nat));
                    } else {
                        assert(holds(m, at + a, b as nat));
                    }
                }
            }
            assert(x =~= bytes_at(m, at, a as nat));
            assert(y =~= bytes_at(m, at + a, b as nat));
            assert(x + y =~= bytes_at(m, at, (a + b) as nat));
            assert(gathered(m, bufs, o, a + b)->Ok_0 =~= x + y);
        } else if a >= l {
            lemma_gathered_join(m, bufs.skip(1), 0, a - l, b);
            let x2 = gathered(m, bufs.skip(1), 0, a - l)->Ok_0;
            assert(bytes_at(m, at, l as nat) + (x2 + y) =~= x + y);
        } else {
            assert(holds(m, at, l as nat)) by {
                assert forall|k: int| at <= k < at + l implies #[trigger] m.dom().contains(k) by {
                    if k < at + a {
                        assert(holds(m, at, a as nat));
                    } else {
                        assert(holds(m, at + a, (l - a) as nat));
                    }
                }
            }
            let y2 = gathered(m, bufs.skip(1), 0, b - (l - a))->Ok_0;
            assert(y == bytes_at(m, at + a, (l - a) as nat) + y2);
            assert(x =~= bytes_at(m, at, a as nat));
            assert(x + y =~= bytes_at(m, at, l as nat) + y2);
            assert(gathered(m, bufs, o, a + b)->Ok_0 =~= x + y);
        }
    }
}

/// Bytes stored one after the other are stored together.
proof fn lemma_stored_join(m: Mem, a: int, x: Seq<u8>, y: Seq<u8>)
    ensures
        stored(stored(m, a, x), a + x.len(), y) == stored(m, a, x + y),
{
    assert(stored(stored(m, a, x), a + x.len(), y) =~= stored(m, a, x + y));
}

proof fn lemma_stored_holds(m: Mem, a: int, x: Seq<u8>, b: int, n: nat)
    ensures
        holds(stored(m, a, x), b, n) == holds(m, b, n),
{
    assert(stored(m, a, x).dom() =~= m.dom());
}

/// Bytes that fit in the first buffer are stored there.
proof fn lemma_scattered_within(m: Mem, bufs: Seq<Buf>, o: int, x: Seq<u8>)
    requires
        bufs.len() > 0,
        0 <= o < bufs[0].len,
        0 < x.len() <= bufs[0].len - o,
    ensures
        scattered(m, bufs, o, x).1 is Ok == holds(m, bufs[0].addr + o, x.len()),
        scattered(m, bufs, o, x).1 is Ok ==> scattered(m, bufs, o, x).0 == stored(
            m,
            bufs[0].addr + o,
            x,
        ),
{
    let m0 = stored(m, bufs[0].addr + o, x);
    assert(x.take(x.len() as int) =~= x);
    assert(scattered(m0, bufs.skip(1), 0, x.skip(x.len() as int)).0 == m0);
    assert(scattered(m0, bufs.skip(1), 0, x.skip(x.len() as int)).1 is Ok);
}

/// Bytes that go past the end of the first buffer fill it up, and the rest goes
/// on in the next.
proof fn lemma_scattered_across(m: Mem, bufs: Seq<Buf>, o: int, x: Seq<u8>)
    requires
        bufs.len() > 0,
        0 <= o < bufs[0].len,
        x.len() > bufs[0].len - o,
    ensures
        ({
            let l = bufs[0].len - o;
            let (m1, r) = scattered(
                stored(m, bufs[0].addr + o, x.take(l)),
                bufs.skip(1),
                0,
                x.skip(l),
            );
            &&& scattered(m, bufs, o, x).1 is Ok == (holds(m, bufs[0].addr + o, l as nat) && r is Ok)
            &&& scattered(m, bufs, o, x).1 is Ok ==> scattered(m, bufs, o, x).0 == m1
        }),
{
}

/// Memory that holds `n` bytes and the `k` bytes after them holds them all.
proof fn lemma_holds_join(m: Mem, a: int, n: nat, k: nat)
    requires
        holds(m, a, n),
        holds(m, a + n, k),
    ensures
        holds(m, a, n + k),
{
    assert forall|i: int| a <= i < a + n + k implies #[trigger] m.dom().contains(i) by {
        assert(i < a + n || a + n <= i);
    }
}

/// Bytes spread over a list of buffers one piece after the other are spread as
/// one.
pub proof fn lemma_scattered_join(m: Mem, bufs: Seq<Buf>, o: int, x: Seq<u8>, y: Seq<u8>)
    requires
        0 <= o,
        total(bufs) >= o + x.len() + y.len(),
        scattered(m, bufs, o, x).1 is Ok,
        scattered(scattered(m, bufs, o, x).0, bufs, o + x.len(), y).1 is Ok,
    ensures
        scattered(m, bufs, o, x + y).0 == scattered(
            scattered(m, bufs, o, x).0,
            bufs,
            o + x.len(),
            y,
        ).0,
        scattered(m, bufs, o, x + y).1 is Ok,
    decreases bufs.len(),
{
    let m1 = scattered(m, bufs, o, x).0;
    let z = x + y;
    if bufs.len() == 0 {
        assert(z =~= x);
    } else if x.len() == 0 {
        assert(z =~= y);
    } else if y.len() == 0 {
        assert(z =~= x);
    } else if o >= bufs[0].len {
        lemma_scattered_join(m, bufs.skip(1), o - bufs[0].len, x, y);
    } else {
        let at = bufs[0].addr + o;
        let l = bufs[0].len - o;
        if x.len() < l {
            lemma_scattered_within(m, bufs, o, x);
            assert(m1 == stored(m, at, x));
            if z.len() <= l {
                lemma_scattered_within(m1, bufs, o + x.len(), y);
                lemma_scattered_within(m, bufs, o, z);
                lemma_stored_join(m, at, x, y);
                lemma_stored_holds(m, at, x, at + x.len(), y.len());
                lemma_holds_join(m, at, x.len(), y.len());
            } else {
                let n = l - x.len();
                lemma_scattered_across(m1, bufs, o + x.len(), y);
                lemma_scattered_across(m, bufs, o, z);
                assert(z.take(l) =~= x + y.take(n));
                assert(z.skip(l) =~= y.skip(n));
                lemma_stored_join(m, at, x, y.take(n));
                lemma_stored_holds(m, at, x, at + x.len(), n as nat);
                lemma_holds_join(m, at, x.len(), n as nat);
            }
        } else {
            lemma_scattered_across(m, bufs, o, z);
            assert(z.take(l) =~= x.take(l));
            if x.len() == l {
                lemma_scattered_within(m, bufs, o, x);
                assert(x.take(l) =~= x);
                assert(z.skip(l) =~= y);
            } else {
                lemma_scattered_across(m, bufs, o, x);
                assert(z.skip(l) =~= x.skip(l) + y);
                lemma_scattered_join(stored(m, at, x.take(l)), bufs.skip(1), 0, x.skip(l), y);
            }
        }
    }
}

proof fn lemma_stored_on_memory(d: Platter, c: Chain, m: Mem, sector: u64, len: nat, done: nat)
    requires
        d.data.len() <= u64::MAX,
        total(c.readable) == 16 + len,
        len % 512 == 0,
        done % 512 == 0,
        done <= len,
        sector * 512 + len <= d.data.len(),
        blk_stored::<MemBackend>(d, c, m, sector, len, done).1 == Transfer::Whole,
    ensures
        gathered(m, c.readable, 16 + done as int, len - done) is Ok,
        blk_stored::<MemBackend>(d, c, m, sector, len, done).0 == (Platter {
            data: patched(
                d.data,
                sector * 512 + done,
                gathered(m, c.readable, 16 + done as int, len - done)->Ok_0,
            ),
            ..d
        }),
    decreases len - done,
{
    if done >= len {
        assert(gathered(m, c.readable, 16 + done as int, 0) == Ok::<Seq<u8>, RamError>(
            Seq::empty(),
        ));
        assert(patched(d.data, sector * 512 + done, Seq::<u8>::empty()) =~= d.data);
    } else {
        let n = min_len((len - done) as nat, 65_536);
        let at = (sector + done / 512) as u64;
        let part = gathered(m, c.readable, 16 + done as int, n as int)->Ok_0;
        lemma_gathered_len(m, c.readable, 16 + done as int, n as int);
        assert(part.len() == n);
        assert(at * 512 == sector * 512 + done);
        assert(in_range(d.data.len() as u64, at, n));
        let d2 = MemBackend::write_next(d, at, part);
        lemma_stored_on_memory(d2, c, m, sector, len, done + n);
        lemma_gathered_join(m, c.readable, 16 + done as int, n as int, len - done - n);
        let rest = gathered(m, c.readable, 16 + (done + n) as int, len - (done + n))->Ok_0;
        assert(patched(d2.data, sector * 512 + (done + n), rest) =~= patched(
            d.data,
            sector * 512 + done,
            part + rest,
        ));
    }
}

proof fn lemma_loaded_from_memory(d: Platter, c: Chain, m: Mem, sector: u64, len: nat, done: nat)
    requires
        d.data.len() <= u64::MAX,
        total(c.writable) >= len,
        len % 512 == 0,
        done % 512 == 0,
        done <= len,
        sector * 512 + len <= d.data.len(),
        blk_loaded::<MemBackend>(d, c, m, sector, len, done).2 == Transfer::Whole,
    ensures
        blk_loaded::<MemBackend>(d, c, m, sector, len, done).0 == d,
        blk_loaded::<MemBackend>(d, c, m, sector, len, done).1 == scattered(
            m,
            c.writable,
            done as int,
            d.data.subrange(sector * 512 + done, sector * 512 + len),
        ).0,
        scattered(
            m,
            c.writable,
            done as int,
            d.data.subrange(sector * 512 + done, sector * 512 + len),
        ).1 is Ok,
    decreases len - done,
{
    if done >= len {
        assert(d.data.subrange(sector * 512 + done, sector * 512 + len).len() == 0);
    } else {
        let n = min_len((len - done) as nat, 65_536);
        let at = (sector + done / 512) as u64;
        assert(at * 512 == sector * 512 + done);
        assert(in_range(d.data.len() as u64, at, n));
        let part = d.data.subrange(at * 512, at * 512 + n);
        let m2 = scattered(m, c.writable, done as int, part).0;
        lemma_loaded_from_memory(d, c, m2, sector, len, done + n);
        let rest = d.data.subrange(sector * 512 + (done + n), sector * 512 + len);
        lemma_scattered_join(m, c.writable, done as int, part, rest);
        assert(part + rest =~= d.data.subrange(sector * 512 + done, sector * 512 + len));
    }
}

/// A write that succeeds leaves the bytes of the request on the disk, from its
/// sector on, and nothing else changes.
pub proof fn law_write_reaches_the_disk(s: Blk<Platter>, c: Chain, m: Mem, sector: u64, len: nat)
    requires
        s.disk.data.len() <= u64::MAX,
        total(c.readable) == 16 + len,
        blk_transfer::<MemBackend>(s, c, m, sector, len, true).2 == Transfer::Whole,
    ensures
        gathered(m, c.readable, 16, len as int) is Ok,
        blk_transfer::<MemBackend>(s, c, m, sector, len, true).0.disk.data == patched(
            s.disk.data,
            sector * 512,
            gathered(m, c.readable, 16, len as int)->Ok_0,
        ),
        blk_transfer::<MemBackend>(s, c, m, sector, len, true).1 == m,
{
    lemma_stored_on_memory(s.disk, c, m, sector, len, 0);
}

/// A read that succeeds spreads the bytes of the disk, from its sector on, over
/// the buffers of the request, and leaves the disk as it is.
pub proof fn law_read_comes_from_the_disk(s: Blk<Platter>, c: Chain, m: Mem, sector: u64, len: nat)
    requires
        s.disk.data.len() <= u64::MAX,
        total(c.writable) >= len,
        blk_transfer::<MemBackend>(s, c, m, sector, len, false).2 == Transfer::Whole,
    ensures
        blk_transfer::<MemBackend>(s, c, m, sector, len, false).0 == s,
        blk_transfer::<MemBackend>(s, c, m, sector, len, false).1 == scattered(
            m,
            c.writable,
            0,
            s.disk.data.subrange(sector * 512, sector * 512 + len),
        ).0,
{
    lemma_loaded_from_memory(s.disk, c, m, sector, len, 0);
}

/// What a request has written, a later request reads back.
pub proof fn law_device_reads_what_was_written(
    s: Blk<Platter>,
    out: Chain,
    m: Mem,
    back: Chain,
    m2: Mem,
    sector: u64,
    len: nat,
)
    requires
        s.disk.data.len() <= u64::MAX,
        total(out.readable) == 16 + len,
        total(back.writable) >= len,
        blk_transfer::<MemBackend>(s, out, m, sector, len, true).2 == Transfer::Whole,
        blk_transfer::<MemBackend>(
            blk_transfer::<MemBackend>(s, out, m, sector, len, true).0,
            back,
            m2,
            sector,
            len,
            false,
        ).2 == Transfer::Whole,
    ensures
        gathered(m, out.readable, 16, len as int) matches Ok(data) && blk_transfer::<MemBackend>(
            blk_transfer::<MemBackend>(s, out, m, sector, len, true).0,
            back,
            m2,
            sector,
            len,
            false,
        ).1 == scattered(m2, back.writable, 0, data).0,
{
    law_write_reaches_the_disk(s, out, m, sector, len);
    let s1 = blk_transfer::<MemBackend>(s, out, m, sector, len, true).0;
    law_read_comes_from_the_disk(s1, back, m2, sector, len);
    lemma_gathered_len(m, out.readable, 16, len as int);
    let data = gathered(m, out.readable, 16, len as int)->Ok_0;
    assert(data.len() == len);
    assert(sector * 512 + len <= s.disk.data.len());
    assert(s1.disk.data.subrange(sector * 512, sector * 512 + len) =~= data);
}

/// Repeating a write changes nothing more.
pub proof fn law_repeated_write_changes_nothing(
    s: Blk<Platter>,
    c: Chain,
    m: Mem,
    sector: u64,
    len: nat,
)
    requires
        s.disk.data.len() <= u64::MAX,
        total(c.readable) == 16 + len,
        blk_transfer::<MemBackend>(s, c, m, sector, len, true).2 == Transfer::Whole,
        blk_transfer::<MemBackend>(
            blk_transfer::<MemBackend>(s, c, m, sector, len, true).0,
            c,
            m,
            sector,
            len,
            true,
        ).2 == Transfer::Whole,
    ensures
        blk_transfer::<MemBackend>(
            blk_transfer::<MemBackend>(s, c, m, sector, len, true).0,
            c,
            m,
            sector,
            len,
            true,
        ).0.disk.data == blk_transfer::<MemBackend>(s, c, m, sector, len, true).0.disk.data,
{
    let s1 = blk_transfer::<MemBackend>(s, c, m, sector, len, true).0;
    law_write_reaches_the_disk(s, c, m, sector, len);
    law_write_reaches_the_disk(s1, c, m, sector, len);
    let data = gathered(m, c.readable, 16, len as int)->Ok_0;
    assert(patched(patched(s.disk.data, sector * 512, data), sector * 512, data) =~= patched(
        s.disk.data,
        sector * 512,
        data,
    ));
}

/// A write to a disk that can only be read, and a transfer that is not of whole
/// sectors or goes past the capacity, end in IOERR and touch neither the disk nor
/// the memory.
pub proof fn law_refused_transfer_touches_nothing<B: BlockBackend>(
    s: Blk<B::Model>,
    c: Chain,
    m: Mem,
    sector: u64,
    len: nat,
    out: bool,
)
    requires
        (out && blk_locked::<B>(s)) || !blk_fits::<B>(s, sector, len),
    ensures
        ({
            let (s2, m2, t) = blk_transfer::<B>(s, c, m, sector, len, out);
            s2 == s && m2 == m && transfer_reply(t, len as u64) == Reply::Status(S_IOERR, 0)
        }),
{
}

/// A request of an unknown type is answered UNSUPP and touches nothing.
pub proof fn law_unknown_request_is_unsupported<B: BlockBackend>(
    s: Blk<B::Model>,
    c: Chain,
    m: Mem,
    kind: u32,
    sector: u64,
)
    requires
        kind != T_IN && kind != T_OUT && kind != T_FLUSH && kind != T_GET_ID,
    ensures
        blk_replied::<B>(s, c, m, kind, sector) == (s, m, Reply::Status(S_UNSUPP, 0)),
{
    reveal(blk_replied);
}

/// A request for which the disk is not ready waits: no other is taken before it.
pub proof fn law_request_waits_for_the_disk<B: BlockBackend>(
    s: Blk<B::Model>,
    q: Virtqueue,
    m: Mem,
    fuel: nat,
    c: Chain,
)
    requires
        fuel > 0,
        s.pending == Some(c),
        blk_handled::<B>(Blk { pending: None, ..s }, c, m).2 == Outcome::Retry,
    ensures
        blk_served::<B>(s, q, m, fuel).0.pending == Some(c),
        blk_served::<B>(s, q, m, fuel).1 == q,
        blk_served::<B>(s, q, m, fuel).3 == Ok::<(), QueueError>(()),
{
}

} // verus!
