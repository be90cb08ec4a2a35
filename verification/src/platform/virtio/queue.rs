//! Split virtqueue.
//!
//! Areas in the guest's RAM, with `n` the queue size (a power of 2):
//! - descriptor table: `n` entries of 16 bytes (addr, len, flags, next);
//! - driver area (available ring): flags, idx, `ring[n]`, used_event;
//! - device area (used ring): flags, idx, `ring[n]` of (id, len), avail_event.
//!
//! Rules (breaking one is an error of the queue):
//! - head and `next` are inside the table; a chain visits no more descriptors
//!   than the table has (no loops);
//! - the buffers that the device may write all follow the readable ones;
//! - INDIRECT only if negotiated and only on the head, with a length that is a
//!   non-zero multiple of 16; NEXT on the indirect descriptor is ignored and
//!   INDIRECT inside an indirect table is forbidden;
//! - `avail.idx` is never more than `n` ahead of what was consumed.
use vstd::prelude::*;
use crate::bytes::{fill_front, le16, le16_at, le16_bytes, le32, le32_at, le32_bytes, le64, le64_at, min_len, patched, push_bytes};
use crate::platform::virtio::ram::{bytes_at, fault, fetched, fetched16, holds, placed, ram_read, ram_write, read_u16, stored, write_u16, write_u32, GuestRam, Mem, RamError};
use crate::text::{number, push_number, push_text};

verus! {

pub const DESC_F_NEXT: u16 = 1;
pub const DESC_F_WRITE: u16 = 2;
pub const DESC_F_INDIRECT: u16 = 4;
/// `avail.flags`: the driver wants no interrupts (without EVENT_IDX).
pub const AVAIL_F_NO_INTERRUPT: u16 = 1;

/// Largest size of a split queue.
pub const MAX_QUEUE_SIZE: u16 = 32_768;

#[derive(Clone, Copy, Debug, PartialEq, Eq)]
pub enum QueueError {
    Ram(RamError),
    /// `avail.idx` has advanced by more than the size of the queue.
    AvailIdx { last: u16, avail: u16 },
    HeadOutOfRange(u16),
    NextOutOfRange(u16),
    /// Chain longer than the table: there is a loop.
    ChainLoop,
    /// Readable buffer after a writable one.
    ReadableAfterWritable,
    IndirectNotNegotiated,
    /// Indirect table that is empty or not a multiple of 16 long.
    IndirectLen(u32),
    /// INDIRECT outside the head descriptor or inside a table.
    IndirectMisplaced,
    /// Malformed request for the device (for example a missing header).
    Malformed(&'static str),
}

impl From<RamError> for QueueError {
    fn from(e: RamError) -> (r: Self) {
        QueueError::Ram(e)
    }
}

impl vstd::std_specs::convert::FromSpecImpl<RamError> for QueueError {
    open spec fn obeys_from_spec() -> bool {
        true
    }

    open spec fn from_spec(e: RamError) -> QueueError {
        QueueError::Ram(e)
    }
}

impl QueueError {
    pub open spec fn text(self) -> Seq<char> {
        match self {
            QueueError::Ram(e) => e.text(),
            QueueError::AvailIdx { last, avail } => "avail.idx salta da "@ + number(last as u64)
                + " a "@ + number(avail as u64),
            QueueError::HeadOutOfRange(h) => "testa "@ + number(h as u64) + " fuori dalla tabella"@,
            QueueError::NextOutOfRange(n) => "next "@ + number(n as u64) + " fuori dalla tabella"@,
            QueueError::ChainLoop => "ciclo nella catena di descrittori"@,
            QueueError::ReadableAfterWritable => "buffer leggibile dopo uno scrivibile"@,
            QueueError::IndirectNotNegotiated => "INDIRECT senza VIRTIO_F_INDIRECT_DESC"@,
            QueueError::IndirectLen(l) => "tabella indiretta di "@ + number(l as u64) + " byte"@,
            QueueError::IndirectMisplaced => "INDIRECT fuori dal descrittore di testa"@,
            QueueError::Malformed(m) => "richiesta malformata: "@ + m@,
        }
    }

    /// The error in words.
    pub fn to_string(&self) -> (r: String)
        ensures
            r@ == self.text(),
    {
        let mut s: String = String::new();
        match self {
            QueueError::Ram(e) => {
                return e.to_string();
            },
            QueueError::AvailIdx { last, avail } => {
                push_text(&mut s, "avail.idx salta da ");
                push_number(&mut s, *last as u64);
                push_text(&mut s, " a ");
                push_number(&mut s, *avail as u64);
            },
            QueueError::HeadOutOfRange(h) => {
                push_text(&mut s, "testa ");
                push_number(&mut s, *h as u64);
                push_text(&mut s, " fuori dalla tabella");
            },
            QueueError::NextOutOfRange(n) => {
                push_text(&mut s, "next ");
                push_number(&mut s, *n as u64);
                push_text(&mut s, " fuori dalla tabella");
            },
            QueueError::ChainLoop => {
                push_text(&mut s, "ciclo nella catena di descrittori");
            },
            QueueError::ReadableAfterWritable => {
                push_text(&mut s, "buffer leggibile dopo uno scrivibile");
            },
            QueueError::IndirectNotNegotiated => {
                push_text(&mut s, "INDIRECT senza VIRTIO_F_INDIRECT_DESC");
            },
            QueueError::IndirectLen(l) => {
                push_text(&mut s, "tabella indiretta di ");
                push_number(&mut s, *l as u64);
                push_text(&mut s, " byte");
            },
            QueueError::IndirectMisplaced => {
                push_text(&mut s, "INDIRECT fuori dal descrittore di testa");
            },
            QueueError::Malformed(m) => {
                push_text(&mut s, "richiesta malformata: ");
                push_text(&mut s, m);
            },
        }
        assert(s@ =~= self.text());
        s
    }
}

/// A buffer of the chain: physical address and length.
#[derive(Clone, Copy, Debug, PartialEq, Eq, Structural)]
pub struct Buf {
    pub addr: u64,
    pub len: u32,
}

/// A chain of descriptors taken from the available ring. `head` is the
/// identifier to return in the used ring.
#[derive(Clone, Debug, PartialEq, Eq)]
pub struct DescChain {
    pub head: u16,
    /// Buffers that the device may read (from driver to device).
    pub readable: Vec<Buf>,
    /// Buffers that the device may write (from device to driver).
    pub writable: Vec<Buf>,
}

/// What a [`DescChain`] holds.
#[verifier::ext_equal]
pub struct Chain {
    pub head: u16,
    pub readable: Seq<Buf>,
    pub writable: Seq<Buf>,
}

/// What a list of chains holds.
pub open spec fn chains_view(s: Seq<DescChain>) -> Seq<Chain> {
    s.map_values(|c: DescChain| c@)
}

impl View for DescChain {
    type V = Chain;

    open spec fn view(&self) -> Chain {
        Chain { head: self.head, readable: self.readable@, writable: self.writable@ }
    }
}

/// Bytes in a list of buffers.
pub open spec fn total(bufs: Seq<Buf>) -> nat
    decreases bufs.len(),
{
    if bufs.len() == 0 { 0 } else { bufs[0].len as nat + total(bufs.skip(1)) }
}

/// `len` bytes from `offset` on of a list of buffers seen as one space (fewer if
/// it ends before), or the error of the first piece that is not RAM.
pub open spec fn gathered(m: Mem, bufs: Seq<Buf>, offset: int, len: int) -> Result<
    Seq<u8>,
    RamError,
>
    decreases bufs.len(),
{
    if bufs.len() == 0 || len <= 0 {
        Ok(Seq::empty())
    } else if offset >= bufs[0].len {
        gathered(m, bufs.skip(1), offset - bufs[0].len, len)
    } else {
        let n = min_len((bufs[0].len - offset) as nat, len as nat);
        let a = bufs[0].addr + offset;
        if !holds(m, a, n) {
            Err(fault(a, n))
        } else {
            match gathered(m, bufs.skip(1), 0, len - n) {
                Ok(rest) => Ok(bytes_at(m, a, n) + rest),
                Err(e) => Err(e),
            }
        }
    }
}

/// `data` written from `offset` on into a list of buffers seen as one space: the
/// memory after it, and how many bytes found room, or the error of the first
/// piece that is not RAM (the pieces before it are written).
pub open spec fn scattered(m: Mem, bufs: Seq<Buf>, offset: int, data: Seq<u8>) -> (
    Mem,
    Result<nat, RamError>,
)
    decreases bufs.len(),
{
    if bufs.len() == 0 || data.len() == 0 {
        (m, Ok(0))
    } else if offset >= bufs[0].len {
        scattered(m, bufs.skip(1), offset - bufs[0].len, data)
    } else {
        let n = min_len((bufs[0].len - offset) as nat, data.len());
        let a = bufs[0].addr + offset;
        if !holds(m, a, n) {
            (m, Err(fault(a, n)))
        } else {
            let (m2, r) = scattered(
                stored(m, a, data.take(n as int)),
                bufs.skip(1),
                0,
                data.skip(n as int),
            );
            match r {
                Ok(k) => (m2, Ok(n + k)),
                Err(e) => (m2, Err(e)),
            }
        }
    }
}

pub proof fn lemma_total_bound(bufs: Seq<Buf>)
    ensures
        total(bufs) <= bufs.len() * 0xffff_ffff,
    decreases bufs.len(),
{
    if bufs.len() > 0 {
        lemma_total_bound(bufs.skip(1));
        assert(bufs.len() * 0xffff_ffff == (bufs.len() - 1) * 0xffff_ffff + 0xffff_ffff);
    }
}

proof fn lemma_total_split(bufs: Seq<Buf>, i: int)
    requires
        0 <= i < bufs.len(),
    ensures
        total(bufs.skip(i)) == bufs[i].len + total(bufs.skip(i + 1)),
        total(bufs) >= total(bufs.skip(i)),
    decreases i,
{
    assert(bufs.skip(i)[0] == bufs[i]);
    assert(bufs.skip(i).skip(1) =~= bufs.skip(i + 1));
    if i > 0 {
        assert(bufs.skip(1).skip(i - 1) =~= bufs.skip(i));
        lemma_total_split(bufs.skip(1), i - 1);
    } else {
        assert(bufs.skip(0) =~= bufs);
    }
}

pub proof fn lemma_gathered_len(m: Mem, bufs: Seq<Buf>, offset: int, len: int)
    requires
        0 <= offset,
    ensures
        gathered(m, bufs, offset, len) matches Ok(d) ==> {
            &&& len >= 0 ==> d.len() <= len
            &&& len >= 0 ==> d.len() == min_len(
                len as nat,
                if total(bufs) >= offset {
                    (total(bufs) - offset) as nat
                } else {
                    0
                },
            )
        },
    decreases bufs.len(),
{
    if bufs.len() == 0 || len <= 0 {
    } else if offset >= bufs[0].len {
        lemma_gathered_len(m, bufs.skip(1), offset - bufs[0].len, len);
    } else {
        let n = min_len((bufs[0].len - offset) as nat, len as nat);
        lemma_gathered_len(m, bufs.skip(1), 0, len - n);
    }
}

/// A chain with no more buffers than a table can hold can be counted.
pub proof fn lemma_chain_countable(c: Chain)
    ensures
        c.wf() ==> c.countable(),
{
    lemma_total_bound(c.readable);
    lemma_total_bound(c.writable);
}

/// Whether the lengths of the buffers add up to what 64 bits can tell.
pub(crate) fn can_sum(bufs: &Vec<Buf>) -> (r: bool)
    ensures
        r == (total(bufs@) <= u64::MAX),
{
    let mut i: usize = bufs.len();
    let mut sum: u64 = 0;
    assert(bufs@.skip(i as int) =~= Seq::empty());
    while i > 0
        invariant
            i <= bufs@.len(),
            sum == total(bufs@.skip(i as int)),
        decreases i,
    {
        i -= 1;
        proof {
            lemma_total_split(bufs@, i as int);
        }
        match sum.checked_add(bufs[i].len as u64) {
            Some(s) => {
                sum = s;
            },
            None => {
                return false;
            },
        }
    }
    assert(bufs@.skip(0) =~= bufs@);
    true
}

fn sum_lens(bufs: &Vec<Buf>) -> (r: u64)
    requires
        total(bufs@) <= u64::MAX,
    ensures
        r == total(bufs@),
{
    let mut i: usize = bufs.len();
    let mut sum: u64 = 0;
    assert(bufs@.skip(i as int) =~= Seq::empty());
    while i > 0
        invariant
            i <= bufs@.len(),
            total(bufs@) <= u64::MAX,
            sum == total(bufs@.skip(i as int)),
        decreases i,
    {
        i -= 1;
        proof {
            lemma_total_split(bufs@, i as int);
        }
        sum = sum + bufs[i].len as u64;
    }
    assert(bufs@.skip(0) =~= bufs@);
    sum
}

/// Reads `len` bytes from `offset` on of the buffers.
fn gather<R: GuestRam>(ram: &R, bufs: &Vec<Buf>, offset: u64, len: u64) -> (r: Result<
    Vec<u8>,
    RamError,
>)
    ensures
        match r {
            Ok(v) => gathered(ram.mem(), bufs@, offset as int, len as int) == Ok::<
                Seq<u8>,
                RamError,
            >(v@),
            Err(e) => gathered(ram.mem(), bufs@, offset as int, len as int) == Err::<
                Seq<u8>,
                RamError,
            >(e),
        },
{
    let mut v: Vec<u8> = Vec::new();
    let mut i: usize = 0;
    let mut off: u64 = offset;
    let mut left: u64 = len;
    let ghost goal = gathered(ram.mem(), bufs@, offset as int, len as int);
    proof {
        assert(bufs@.skip(0) =~= bufs@);
        if let Ok(d) = goal {
            assert(v@ + d =~= d);
        }
    }
    while i < bufs.len() && left > 0
        invariant
            i <= bufs@.len(),
            goal == gathered(ram.mem(), bufs@, offset as int, len as int),
            goal == (match gathered(ram.mem(), bufs@.skip(i as int), off as int, left as int) {
                Ok(rest) => Ok(v@ + rest),
                Err(e) => Err::<Seq<u8>, RamError>(e),
            }),
        decreases bufs@.len() - i,
    {
        let b: Buf = bufs[i];
        assert(bufs@.skip(i as int)[0] == b);
        assert(bufs@.skip(i as int).skip(1) =~= bufs@.skip(i + 1));
        let blen: u64 = b.len as u64;
        if off >= blen {
            off = off - blen;
        } else {
            let n: u64 = if blen - off <= left { blen - off } else { left };
            match ram_read(ram, b.addr, off, n as usize) {
                Err(e) => {
                    return Err(e);
                },
                Ok(piece) => {
                    let ghost v0 = v@;
                    push_bytes(&mut v, piece.as_slice());
                    proof {
                        if let Ok(rest) = gathered(
                            ram.mem(),
                            bufs@.skip(i + 1),
                            0,
                            left as int - n as int,
                        ) {
                            assert(v0 + (piece@ + rest) =~= v@ + rest);
                        }
                    }
                },
            }
            left = left - n;
            off = 0;
        }
        i += 1;
    }
    assert(v@ + Seq::<u8>::empty() =~= v@);
    Ok(v)
}

/// Writes `data` from `offset` on into the buffers.
fn scatter<R: GuestRam>(ram: &mut R, bufs: &Vec<Buf>, offset: u64, data: &[u8]) -> (r: Result<
    usize,
    RamError,
>)
    ensures
        final(ram).mem() == scattered(old(ram).mem(), bufs@, offset as int, data@).0,
        match r {
            Ok(n) => scattered(old(ram).mem(), bufs@, offset as int, data@).1 == Ok::<
                nat,
                RamError,
            >(n as nat) && n <= data@.len(),
            Err(e) => scattered(old(ram).mem(), bufs@, offset as int, data@).1 == Err::<
                nat,
                RamError,
            >(e),
        },
{
    let mut i: usize = 0;
    let mut off: u64 = offset;
    let mut done: usize = 0;
    let total: usize = data.len();
    let ghost goal = scattered(ram.mem(), bufs@, offset as int, data@);
    proof {
        assert(bufs@.skip(0) =~= bufs@);
        assert(data@.skip(0) =~= data@);
    }
    while i < bufs.len() && done < total
        invariant
            i <= bufs@.len(),
            done <= total == data@.len(),
            goal == scattered(old(ram).mem(), bufs@, offset as int, data@),
            goal.0 == scattered(
                ram.mem(),
                bufs@.skip(i as int),
                off as int,
                data@.skip(done as int),
            ).0,
            goal.1 == (match scattered(
                ram.mem(),
                bufs@.skip(i as int),
                off as int,
                data@.skip(done as int),
            ).1 {
                Ok(k) => Ok((done + k) as nat),
                Err(e) => Err::<nat, RamError>(e),
            }),
        decreases bufs@.len() - i,
    {
        let b: Buf = bufs[i];
        assert(bufs@.skip(i as int)[0] == b);
        assert(bufs@.skip(i as int).skip(1) =~= bufs@.skip(i + 1));
        let blen: u64 = b.len as u64;
        if off >= blen {
            off = off - blen;
        } else {
            let left: usize = total - done;
            let room: usize = (blen - off) as usize;
            let n: usize = if room <= left { room } else { left };
            let piece: &[u8] = vstd::slice::slice_subrange(data, done, done + n);
            assert(piece@ =~= data@.skip(done as int).take(n as int));
            match ram_write(ram, b.addr, off, piece) {
                Err(e) => {
                    return Err(e);
                },
                Ok(_) => {},
            }
            assert(data@.skip(done as int).skip(n as int) =~= data@.skip(done + n));
            done = done + n;
            off = 0;
        }
        i += 1;
    }
    Ok(done)
}

impl DescChain {
    /// A chain has no more buffers than a table can hold.
    pub open spec fn wf(self) -> bool {
        self@.wf()
    }

    pub fn readable_len(&self) -> (r: u64)
        requires
            self.wf() || self@.countable(),
        ensures
            r == total(self@.readable),
    {
        proof {
            lemma_chain_countable(self@);
        }
        sum_lens(&self.readable)
    }

    pub fn writable_len(&self) -> (r: u64)
        requires
            self.wf() || self@.countable(),
        ensures
            r == total(self@.writable),
    {
        proof {
            lemma_chain_countable(self@);
        }
        sum_lens(&self.writable)
    }

    /// Reads from the readable buffers, seen as one space, from `offset` on.
    /// Returns the bytes read (fewer than `out.len()` at the end).
    pub fn read<R: GuestRam>(&self, ram: &R, offset: u64, out: &mut [u8]) -> (r: Result<
        usize,
        RamError,
    >)
        ensures
            final(out)@.len() == old(out)@.len(),
            match r {
                Ok(n) => exists|d: Seq<u8>|
                    #![trigger d.len()]
                    gathered(ram.mem(), self@.readable, offset as int, old(out)@.len() as int)
                        == Ok::<Seq<u8>, RamError>(d) && n == d.len() && final(out)@ == patched(
                        old(out)@,
                        0,
                        d,
                    ),
                Err(e) => gathered(
                    ram.mem(),
                    self@.readable,
                    offset as int,
                    old(out)@.len() as int,
                ) == Err::<Seq<u8>, RamError>(e),
            },
    {
        match gather(ram, &self.readable, offset, out.len() as u64) {
            Err(e) => Err(e),
            Ok(v) => {
                proof {
                    lemma_gathered_len(
                        ram.mem(),
                        self@.readable,
                        offset as int,
                        out@.len() as int,
                    );
                }
                fill_front(out, v.as_slice());
                Ok(v.len())
            },
        }
    }

    /// The bytes from `offset` on, at most `len`.
    pub fn read_part<R: GuestRam>(&self, ram: &R, offset: u64, len: u64) -> (r: Result<
        Vec<u8>,
        RamError,
    >)
        ensures
            match r {
                Ok(v) => gathered(ram.mem(), self@.readable, offset as int, len as int) == Ok::<
                    Seq<u8>,
                    RamError,
                >(v@),
                Err(e) => gathered(ram.mem(), self@.readable, offset as int, len as int) == Err::<
                    Seq<u8>,
                    RamError,
                >(e),
            },
    {
        gather(ram, &self.readable, offset, len)
    }

    /// All the readable bytes from `offset` to the end.
    pub fn read_to_vec<R: GuestRam>(&self, ram: &R, offset: u64) -> (r: Result<Vec<u8>, RamError>)
        requires
            self.wf(),
        ensures
            match r {
                Ok(v) => self@.contents(ram.mem(), offset as int) == Ok::<Seq<u8>, RamError>(v@),
                Err(e) => self@.contents(ram.mem(), offset as int) == Err::<Seq<u8>, RamError>(e),
            },
    {
        let len: u64 = self.readable_len().saturating_sub(offset);
        gather(ram, &self.readable, offset, len)
    }

    /// Writes into the writable buffers, seen as one space, from `offset` on.
    /// Returns the bytes written (fewer if the room ends).
    pub fn write<R: GuestRam>(&self, ram: &mut R, offset: u64, data: &[u8]) -> (r: Result<
        usize,
        RamError,
    >)
        ensures
            final(ram).mem() == scattered(old(ram).mem(), self@.writable, offset as int, data@).0,
            match r {
                Ok(n) => scattered(old(ram).mem(), self@.writable, offset as int, data@).1 == Ok::<
                    nat,
                    RamError,
                >(n as nat) && n <= data@.len(),
                Err(e) => scattered(old(ram).mem(), self@.writable, offset as int, data@).1
                    == Err::<nat, RamError>(e),
            },
    {
        scatter(ram, &self.writable, offset, data)
    }
}

impl Chain {
    pub open spec fn wf(self) -> bool {
        self.readable.len() + self.writable.len() <= MAX_QUEUE_SIZE
    }

    /// The lengths of both directions can be told in 64 bits.
    pub open spec fn countable(self) -> bool {
        total(self.readable) <= u64::MAX && total(self.writable) <= u64::MAX
    }

    /// All the readable bytes from `offset` to the end.
    pub open spec fn contents(self, m: Mem, offset: int) -> Result<Seq<u8>, RamError> {
        let t = total(self.readable) as int;
        gathered(m, self.readable, offset, if t >= offset { t - offset } else { 0 })
    }
}

// ---- Descriptors ------------------------------------------------------------

/// A descriptor as it stands in memory.
#[derive(Clone, Copy, Debug, PartialEq, Eq, Structural)]
pub struct Desc {
    pub addr: u64,
    pub len: u32,
    pub flags: u16,
    pub next: u16,
}

impl Desc {
    pub open spec fn of(b: Seq<u8>) -> Desc {
        Desc {
            addr: le64_at(b, 0),
            len: le32_at(b, 8),
            flags: le16_at(b, 12),
            next: le16_at(b, 14),
        }
    }

    pub open spec fn flag(self, f: u16) -> bool {
        self.flags & f != 0
    }
}

/// The descriptor `i` of a table.
pub open spec fn desc_at(m: Mem, table: u64, i: u16) -> Result<Desc, RamError> {
    match fetched(m, table + 16 * i, 16) {
        Ok(b) => Ok(Desc::of(b)),
        Err(e) => Err(e),
    }
}

fn read_desc<R: GuestRam>(ram: &R, table: u64, i: u16) -> (r: Result<Desc, RamError>)
    ensures
        r == desc_at(ram.mem(), table, i),
{
    match ram_read(ram, table, 16 * i as u64, 16) {
        Err(e) => Err(e),
        Ok(b) => {
            let s: &[u8] = b.as_slice();
            Ok(Desc { addr: le64(s, 0), len: le32(s, 8), flags: le16(s, 12), next: le16(s, 14) })
        },
    }
}

/// The rest of a chain from the descriptor `d` on, `visited` before it.
pub open spec fn followed(
    m: Mem,
    table: u64,
    table_len: u16,
    d: Desc,
    visited: int,
    c: Chain,
) -> Result<Chain, QueueError>
    decreases table_len - visited,
{
    if visited >= table_len {
        Err(QueueError::ChainLoop)
    } else if d.flag(DESC_F_INDIRECT) {
        Err(QueueError::IndirectMisplaced)
    } else if !d.flag(DESC_F_WRITE) && c.writable.len() > 0 {
        Err(QueueError::ReadableAfterWritable)
    } else {
        let buf = Buf { addr: d.addr, len: d.len };
        let c2 = if d.flag(DESC_F_WRITE) {
            Chain { writable: c.writable.push(buf), ..c }
        } else {
            Chain { readable: c.readable.push(buf), ..c }
        };
        if !d.flag(DESC_F_NEXT) {
            Ok(c2)
        } else if d.next >= table_len {
            Err(QueueError::NextOutOfRange(d.next))
        } else {
            match desc_at(m, table, d.next) {
                Err(e) => Err(QueueError::Ram(e)),
                Ok(d2) => followed(m, table, table_len, d2, visited + 1, c2),
            }
        }
    }
}

/// `a + b` modulo 2^16.
pub open spec fn wadd16(a: u16, b: u16) -> u16 {
    ((a + b) % 0x1_0000) as u16
}

/// `a - b` modulo 2^16.
pub open spec fn wsub16(a: u16, b: u16) -> u16 {
    ((a - b) % 0x1_0000) as u16
}

/// An event is needed if `event` lies in `[old, new)` modulo 2^16.
pub fn need_event(event: u16, new: u16, old: u16) -> (r: bool)
    ensures
        r == (wsub16(event, old) < wsub16(new, old)),
{
    new.wrapping_sub(event).wrapping_sub(1) < new.wrapping_sub(old)
}

/// State of a split queue on the device's side.
#[derive(Clone, Copy, Debug, PartialEq, Eq, Structural)]
pub struct Virtqueue {
    pub max_size: u16,
    pub size: u16,
    pub ready: bool,
    pub desc: u64,
    pub driver: u64,
    pub device: u64,
    /// Next index of the available ring to consume.
    pub last_avail: u16,
    /// Next index of the used ring to write (copy of `used.idx`).
    pub used_idx: u16,
    /// `used.idx` at the last decision about the interrupt.
    pub signalled_used: u16,
    pub event_idx: bool,
    pub indirect: bool,
}

/// A power of 2 that fits in 16 bits.
pub open spec fn power_of_two(n: u16) -> bool {
    n == 1 || n == 2 || n == 4 || n == 8 || n == 16 || n == 32 || n == 64 || n == 128 || n == 256
        || n == 512 || n == 1024 || n == 2048 || n == 4096 || n == 8192 || n == 16_384 || n
        == 32_768
}

fn is_power_of_two(n: u16) -> (r: bool)
    ensures
        r == power_of_two(n),
{
    n == 1 || n == 2 || n == 4 || n == 8 || n == 16 || n == 32 || n == 64 || n == 128 || n == 256
        || n == 512 || n == 1024 || n == 2048 || n == 4096 || n == 8192 || n == 16_384 || n
        == 32_768
}

impl Virtqueue {
    /// A queue that is ready has a valid size.
    pub open spec fn wf(self) -> bool {
        self.ready ==> 0 < self.size <= MAX_QUEUE_SIZE
    }

    pub open spec fn fresh(max_size: u16) -> Virtqueue {
        Virtqueue {
            max_size,
            size: max_size,
            ready: false,
            desc: 0,
            driver: 0,
            device: 0,
            last_avail: 0,
            used_idx: 0,
            signalled_used: 0,
            event_idx: false,
            indirect: false,
        }
    }

    pub fn new(max_size: u16) -> (r: Self)
        ensures
            r == Self::fresh(max_size),
            r.wf(),
    {
        Virtqueue {
            max_size,
            size: max_size,
            ready: false,
            desc: 0,
            driver: 0,
            device: 0,
            last_avail: 0,
            used_idx: 0,
            signalled_used: 0,
            event_idx: false,
            indirect: false,
        }
    }

    /// Back to the reset state (size = largest, not ready).
    pub fn reset(&mut self)
        ensures
            *final(self) == Self::fresh(old(self).max_size),
            final(self).wf(),
    {
        *self = Self::new(self.max_size);
    }

    pub fn max_size(&self) -> (r: u16)
        ensures
            r == self.max_size,
    {
        self.max_size
    }

    pub fn size(&self) -> (r: u16)
        ensures
            r == self.size,
    {
        self.size
    }

    pub fn ready(&self) -> (r: bool)
        ensures
            r == self.ready,
    {
        self.ready
    }

    /// Addresses of the table, the driver area and the device area.
    pub fn addrs(&self) -> (r: (u64, u64, u64))
        ensures
            r == (self.desc, self.driver, self.device),
    {
        (self.desc, self.driver, self.device)
    }

    pub fn set_size(&mut self, n: u16)
        ensures
            *final(self) == (Virtqueue { size: n, ..*old(self) }),
    {
        self.size = n;
    }

    pub fn set_desc(&mut self, a: u64)
        ensures
            *final(self) == (Virtqueue { desc: a, ..*old(self) }),
    {
        self.desc = a;
    }

    pub fn set_driver(&mut self, a: u64)
        ensures
            *final(self) == (Virtqueue { driver: a, ..*old(self) }),
    {
        self.driver = a;
    }

    pub fn set_device(&mut self, a: u64)
        ensures
            *final(self) == (Virtqueue { device: a, ..*old(self) }),
    {
        self.device = a;
    }

    /// The size is a power of 2 within the limit, and the areas are aligned
    /// to 16, 2 and 4 bytes.
    pub open spec fn valid(self) -> bool {
        &&& power_of_two(self.size)
        &&& self.size <= self.max_size
        &&& self.desc % 16 == 0
        &&& self.driver % 2 == 0
        &&& self.device % 4 == 0
    }

    pub open spec fn readied(self, ready: bool) -> Virtqueue {
        if ready && self.valid() {
            Virtqueue { ready: true, last_avail: 0, used_idx: 0, signalled_used: 0, ..self }
        } else {
            Virtqueue { ready: false, ..self }
        }
    }

    /// QueueReady: the queue becomes ready only with a valid configuration.
    /// Returns the resulting state.
    pub fn set_ready(&mut self, ready: bool) -> (r: bool)
        ensures
            *final(self) == old(self).readied(ready),
            r == final(self).ready,
            final(self).wf(),
    {
        let valid: bool = is_power_of_two(self.size) && self.size <= self.max_size && self.desc % 16
            == 0 && self.driver % 2 == 0 && self.device % 4 == 0;
        self.ready = ready && valid;
        if self.ready {
            self.last_avail = 0;
            self.used_idx = 0;
            self.signalled_used = 0;
        }
        self.ready
    }

    // ---- Available ring -----------------------------------------------------------

    pub open spec fn avail_idx(self, m: Mem) -> Result<u16, QueueError> {
        match fetched16(m, self.driver + 2) {
            Err(e) => Err(QueueError::Ram(e)),
            Ok(idx) => if wsub16(idx, self.last_avail) > self.size {
                Err(QueueError::AvailIdx { last: self.last_avail, avail: idx })
            } else {
                Ok(idx)
            },
        }
    }

    fn read_avail_idx<R: GuestRam>(&self, ram: &R) -> (r: Result<u16, QueueError>)
        ensures
            r == self.avail_idx(ram.mem()),
    {
        match read_u16(ram, self.driver, 2) {
            Err(e) => Err(QueueError::Ram(e)),
            Ok(idx) => if idx.wrapping_sub(self.last_avail) > self.size {
                Err(QueueError::AvailIdx { last: self.last_avail, avail: idx })
            } else {
                Ok(idx)
            },
        }
    }

    /// How many chains are available and not consumed yet.
    pub open spec fn waiting(self, m: Mem) -> Result<u16, QueueError> {
        if !self.ready {
            Ok(0)
        } else {
            match self.avail_idx(m) {
                Ok(idx) => Ok(wsub16(idx, self.last_avail)),
                Err(e) => Err(e),
            }
        }
    }

    /// Number of chains available and not consumed yet.
    pub fn available<R: GuestRam>(&self, ram: &R) -> (r: Result<u16, QueueError>)
        ensures
            r == self.waiting(ram.mem()),
    {
        if !self.ready {
            return Ok(0);
        }
        match self.read_avail_idx(ram) {
            Ok(idx) => Ok(idx.wrapping_sub(self.last_avail)),
            Err(e) => Err(e),
        }
    }

    /// With EVENT_IDX: the driver is asked for a notification when it publishes
    /// the index `last_avail` (field avail_event of the used ring).
    pub open spec fn event_published(self, m: Mem) -> (Mem, Result<(), RamError>) {
        if self.event_idx {
            placed(m, self.device + (4 + 8 * self.size), le16_bytes(self.last_avail))
        } else {
            (m, Ok(()))
        }
    }

    fn publish_avail_event<R: GuestRam>(&self, ram: &mut R) -> (r: Result<(), RamError>)
        ensures
            (final(ram).mem(), r) == self.event_published(old(ram).mem()),
    {
        if self.event_idx {
            write_u16(ram, self.device, 4 + 8 * self.size as u64, self.last_avail)
        } else {
            Ok(())
        }
    }

    /// The chain whose head is `head`.
    #[verifier::opaque]
    pub open spec fn chain_at(self, m: Mem, head: u16) -> Result<Chain, QueueError> {
        let empty = Chain { head, readable: Seq::empty(), writable: Seq::empty() };
        if head >= self.size {
            Err(QueueError::HeadOutOfRange(head))
        } else {
            match desc_at(m, self.desc, head) {
                Err(e) => Err(QueueError::Ram(e)),
                Ok(d) => if !d.flag(DESC_F_INDIRECT) {
                    followed(m, self.desc, self.size, d, 0, empty)
                } else if !self.indirect {
                    Err(QueueError::IndirectNotNegotiated)
                } else if d.len == 0 || d.len % 16 != 0 || d.len / 16 > MAX_QUEUE_SIZE {
                    Err(QueueError::IndirectLen(d.len))
                } else {
                    match desc_at(m, d.addr, 0) {
                        Err(e) => Err(QueueError::Ram(e)),
                        Ok(d2) => followed(m, d.addr, (d.len / 16) as u16, d2, 0, empty),
                    }
                },
            }
        }
    }

    fn walk<R: GuestRam>(&self, ram: &R, head: u16) -> (r: Result<DescChain, QueueError>)
        requires
            self.size <= MAX_QUEUE_SIZE,
        ensures
            match r {
                Ok(c) => self.chain_at(ram.mem(), head) == Ok::<Chain, QueueError>(c@) && c.wf(),
                Err(e) => self.chain_at(ram.mem(), head) == Err::<Chain, QueueError>(e),
            },
    {
        reveal(Virtqueue::chain_at);
        if head >= self.size {
            return Err(QueueError::HeadOutOfRange(head));
        }
        let first: Desc = match read_desc(ram, self.desc, head) {
            Ok(d) => d,
            Err(e) => {
                return Err(QueueError::Ram(e));
            },
        };
        if first.flags & DESC_F_INDIRECT == 0 {
            return follow(ram, self.desc, self.size, first, head);
        }
        if !self.indirect {
            return Err(QueueError::IndirectNotNegotiated);
        }
        if first.len == 0 || first.len % 16 != 0 || first.len / 16 > MAX_QUEUE_SIZE as u32 {
            return Err(QueueError::IndirectLen(first.len));
        }
        match read_desc(ram, first.addr, 0) {
            Err(e) => Err(QueueError::Ram(e)),
            Ok(d) => follow(ram, first.addr, (first.len / 16) as u16, d, head),
        }
    }

    /// The next available chain is taken, if there is one: the queue and the
    /// memory after it, and the chain.
    #[verifier::opaque]
    pub open spec fn popped(self, m: Mem) -> (Virtqueue, Mem, Result<Option<Chain>, QueueError>) {
        if !self.ready {
            (self, m, Ok(None))
        } else {
            match self.avail_idx(m) {
                Err(e) => (self, m, Err(e)),
                Ok(avail) => if avail == self.last_avail {
                    let (m2, r) = self.event_published(m);
                    match r {
                        Ok(_) => (self, m2, Ok(None)),
                        Err(e) => (self, m2, Err(QueueError::Ram(e))),
                    }
                } else {
                    match fetched16(m, self.driver + (4 + 2 * (self.last_avail % self.size))) {
                        Err(e) => (self, m, Err(QueueError::Ram(e))),
                        Ok(head) => match self.chain_at(m, head) {
                            Err(e) => (self, m, Err(e)),
                            Ok(c) => {
                                let q = Virtqueue {
                                    last_avail: wadd16(self.last_avail, 1),
                                    ..self
                                };
                                let (m2, r) = q.event_published(m);
                                match r {
                                    Ok(_) => (q, m2, Ok(Some(c))),
                                    Err(e) => (q, m2, Err(QueueError::Ram(e))),
                                }
                            },
                        },
                    }
                },
            }
        }
    }

    /// Takes the next available chain, if there is one.
    pub fn pop<R: GuestRam>(&mut self, ram: &mut R) -> (r: Result<Option<DescChain>, QueueError>)
        requires
            old(self).wf(),
        ensures
            final(self).wf(),
            *final(self) == old(self).popped(old(ram).mem()).0,
            final(ram).mem() == old(self).popped(old(ram).mem()).1,
            match r {
                Ok(Some(c)) => old(self).popped(old(ram).mem()).2 == Ok::<
                    Option<Chain>,
                    QueueError,
                >(Some(c@)) && c.wf() && old(self).ready,
                Ok(None) => old(self).popped(old(ram).mem()).2 == Ok::<Option<Chain>, QueueError>(
                    None,
                ),
                Err(e) => old(self).popped(old(ram).mem()).2 == Err::<Option<Chain>, QueueError>(e),
            },
            r matches Ok(Some(_)) ==> final(self).size > 0,
            final(self).size == old(self).size,
    {
        reveal(Virtqueue::popped);
        if !self.ready {
            return Ok(None);
        }
        let avail: u16 = match self.read_avail_idx(ram) {
            Ok(a) => a,
            Err(e) => {
                return Err(e);
            },
        };
        if avail == self.last_avail {
            return match self.publish_avail_event(ram) {
                Ok(_) => Ok(None),
                Err(e) => Err(QueueError::Ram(e)),
            };
        }
        let slot: u64 = (self.last_avail % self.size) as u64;
        let head: u16 = match read_u16(ram, self.driver, 4 + 2 * slot) {
            Ok(h) => h,
            Err(e) => {
                return Err(QueueError::Ram(e));
            },
        };
        let chain: DescChain = match self.walk(ram, head) {
            Ok(c) => c,
            Err(e) => {
                return Err(e);
            },
        };
        self.last_avail = self.last_avail.wrapping_add(1);
        match self.publish_avail_event(ram) {
            Ok(_) => Ok(Some(chain)),
            Err(e) => Err(QueueError::Ram(e)),
        }
    }

    /// Puts the last `n` chains taken back into the available ring (the device
    /// did not use them).
    pub fn rewind<R: GuestRam>(&mut self, ram: &mut R, n: u16) -> (r: Result<(), RamError>)
        ensures
            *final(self) == old(self).rewound(n),
            (final(ram).mem(), r) == old(self).rewound(n).event_published(old(ram).mem()),
    {
        self.last_avail = self.last_avail.wrapping_sub(n);
        self.publish_avail_event(ram)
    }

    pub open spec fn rewound(self, n: u16) -> Virtqueue {
        Virtqueue { last_avail: wsub16(self.last_avail, n), ..self }
    }

    // ---- Used ring ----------------------------------------------------------------

    /// The chain `head` goes back to the driver with `len` bytes written: the
    /// element first, and `used.idx` after it.
    #[verifier::opaque]
    pub open spec fn returned(self, m: Mem, head: u16, len: u32) -> (
        Virtqueue,
        Mem,
        Result<(), RamError>,
    ) {
        let at = self.device + (4 + 8 * (self.used_idx % self.size));
        let (m1, r1) = placed(m, at, le32_bytes(head as u32));
        if r1 is Err {
            (self, m1, r1)
        } else {
            let (m2, r2) = placed(m1, at + 4, le32_bytes(len));
            if r2 is Err {
                (self, m2, r2)
            } else {
                let q = Virtqueue { used_idx: wadd16(self.used_idx, 1), ..self };
                let (m3, r3) = placed(m2, self.device + 2, le16_bytes(q.used_idx));
                (q, m3, r3)
            }
        }
    }

    /// Returns the chain `head` to the driver with `len` bytes written.
    pub fn push_used<R: GuestRam>(&mut self, ram: &mut R, head: u16, len: u32) -> (r: Result<
        (),
        RamError,
    >)
        requires
            old(self).size > 0,
        ensures
            (*final(self), final(ram).mem(), r) == old(self).returned(old(ram).mem(), head, len),
            old(self).wf() ==> final(self).wf(),
            final(self).size == old(self).size,
    {
        reveal(Virtqueue::returned);
        let slot: u64 = (self.used_idx % self.size) as u64;
        match write_u32(ram, self.device, 4 + 8 * slot, head as u32) {
            Ok(_) => {},
            Err(e) => {
                return Err(e);
            },
        }
        match write_u32(ram, self.device, 8 + 8 * slot, len) {
            Ok(_) => {},
            Err(e) => {
                return Err(e);
            },
        }
        self.used_idx = self.used_idx.wrapping_add(1);
        write_u16(ram, self.device, 2, self.used_idx)
    }

    /// After some chains were returned: is the driver to be told? Without
    /// EVENT_IDX `avail.flags` decides (NO_INTERRUPT); with EVENT_IDX
    /// `used_event` must have been passed by these chains.
    pub open spec fn notice(self, m: Mem) -> (Virtqueue, Result<bool, RamError>) {
        let q = Virtqueue { signalled_used: self.used_idx, ..self };
        if !self.ready || self.signalled_used == self.used_idx {
            (self, Ok(false))
        } else if self.event_idx {
            match fetched16(m, self.driver + (4 + 2 * self.size)) {
                Ok(event) => (
                    q,
                    Ok(
                        wsub16(event, self.signalled_used) < wsub16(
                            self.used_idx,
                            self.signalled_used,
                        ),
                    ),
                ),
                Err(e) => (q, Err(e)),
            }
        } else {
            match fetched16(m, self.driver as int) {
                Ok(flags) => (q, Ok(flags & AVAIL_F_NO_INTERRUPT == 0)),
                Err(e) => (q, Err(e)),
            }
        }
    }

    pub fn should_notify<R: GuestRam>(&mut self, ram: &R) -> (r: Result<bool, RamError>)
        ensures
            (*final(self), r) == old(self).notice(ram.mem()),
            old(self).wf() ==> final(self).wf(),
    {
        let old_idx: u16 = self.signalled_used;
        let new_idx: u16 = self.used_idx;
        if !self.ready || old_idx == new_idx {
            return Ok(false);
        }
        self.signalled_used = new_idx;
        if self.event_idx {
            match read_u16(ram, self.driver, 4 + 2 * self.size as u64) {
                Ok(event) => Ok(need_event(event, new_idx, old_idx)),
                Err(e) => Err(e),
            }
        } else {
            match read_u16(ram, self.driver, 0) {
                Ok(flags) => Ok(flags & AVAIL_F_NO_INTERRUPT == 0),
                Err(e) => Err(e),
            }
        }
    }
}

/// Follows a chain through its table.
fn follow<R: GuestRam>(ram: &R, table: u64, table_len: u16, first: Desc, head: u16) -> (r: Result<
    DescChain,
    QueueError,
>)
    requires
        table_len <= MAX_QUEUE_SIZE,
    ensures
        ({
            let goal = followed(
                ram.mem(),
                table,
                table_len,
                first,
                0,
                Chain { head, readable: Seq::empty(), writable: Seq::empty() },
            );
            match r {
                Ok(c) => goal == Ok::<Chain, QueueError>(c@) && c.wf(),
                Err(e) => goal == Err::<Chain, QueueError>(e),
            }
        }),
{
    let mut c = DescChain { head, readable: Vec::new(), writable: Vec::new() };
    let mut d: Desc = first;
    let mut visited: u16 = 0;
    let ghost goal = followed(
        ram.mem(),
        table,
        table_len,
        first,
        0,
        Chain { head, readable: Seq::empty(), writable: Seq::empty() },
    );
    assert(c@ =~= Chain { head, readable: Seq::empty(), writable: Seq::empty() });
    while visited < table_len
        invariant
            visited <= table_len <= MAX_QUEUE_SIZE,
            c@.readable.len() + c@.writable.len() == visited,
            goal == followed(
                ram.mem(),
                table,
                table_len,
                first,
                0,
                Chain { head, readable: Seq::empty(), writable: Seq::empty() },
            ),
            goal == followed(ram.mem(), table, table_len, d, visited as int, c@),
        decreases table_len - visited,
    {
        if d.flags & DESC_F_INDIRECT != 0 {
            return Err(QueueError::IndirectMisplaced);
        }
        let buf = Buf { addr: d.addr, len: d.len };
        let ghost c0 = c@;
        if d.flags & DESC_F_WRITE != 0 {
            c.writable.push(buf);
            assert(c@ =~= Chain { writable: c0.writable.push(buf), ..c0 });
        } else if c.writable.len() == 0 {
            c.readable.push(buf);
            assert(c@ =~= Chain { readable: c0.readable.push(buf), ..c0 });
        } else {
            return Err(QueueError::ReadableAfterWritable);
        }
        if d.flags & DESC_F_NEXT == 0 {
            return Ok(c);
        }
        if d.next >= table_len {
            return Err(QueueError::NextOutOfRange(d.next));
        }
        match read_desc(ram, table, d.next) {
            Err(e) => {
                return Err(QueueError::Ram(e));
            },
            Ok(d2) => {
                d = d2;
            },
        }
        visited += 1;
    }
    Err(QueueError::ChainLoop)
}

} // verus!
