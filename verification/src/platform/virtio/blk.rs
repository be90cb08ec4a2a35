//! virtio-blk, the block device.
//!
//! One queue of requests. Each request: a readable header of 16 bytes (type,
//! reserved, sector), data, and a writable status byte at the end. Types: IN,
//! OUT, FLUSH, GET_ID; the others are answered UNSUPP. Sectors always have 512
//! bytes, whatever `blk_size` is.
//!
//! - A request without a whole header or without a status byte is an error of
//!   the queue (DEVICE_NEEDS_RESET).
//! - Data that is not a multiple of 512, an access past the capacity, a write to
//!   a disk that can only be read, and an error of the backend give IOERR.
//! - The length in the used ring is the one really written (data + status).
//! - I/O goes in pieces of 64 KiB.
//! - [`BlockError::NotReady`] leaves the request pending: it is tried again from
//!   the start at the next service, before others are taken.
use vstd::prelude::*;
use crate::bytes::{le16_bytes, le32, le32_at, le32_bytes, le64, le64_at, le64_bytes, min_len, push_bytes, push_le16, push_le32, push_le64, push_zeros, zeros};
use crate::platform::bus::Holds;
use crate::platform::virtio::queue::{gathered, lemma_chain_countable, lemma_gathered_len, scattered, total, Chain, DescChain, QueueError, Virtqueue};
use crate::platform::virtio::ram::{GuestRam, Mem};
use crate::platform::virtio::{read_config_bytes, ServiceCtx, VirtioDevice, Work, ID_BLOCK, SERVICE_LIMIT};

pub use crate::platform::virtio::disk::{BlockBackend, BlockError, CowBackend, MemBackend, BLK_SECTOR_SIZE};

verus! {

pub const T_IN: u32 = 0;
pub const T_OUT: u32 = 1;
pub const T_FLUSH: u32 = 4;
pub const T_GET_ID: u32 = 8;

pub const S_OK: u8 = 0;
pub const S_IOERR: u8 = 1;
pub const S_UNSUPP: u8 = 2;

pub const F_SIZE_MAX: u64 = 0x2;
pub const F_SEG_MAX: u64 = 0x4;
pub const F_RO: u64 = 0x20;
pub const F_BLK_SIZE: u64 = 0x40;
pub const F_FLUSH: u64 = 0x200;

/// Length of the identifier of GET_ID.
pub const ID_BYTES: usize = 20;
/// Largest piece for one call of the backend.
pub const CHUNK: u64 = 65_536;

/// Parameters of virtio-blk.
#[derive(Clone, Debug)]
pub struct VirtioBlkConfig {
    /// Size of the queue.
    pub queue_size: u16,
    /// Most data segments in a request.
    pub seg_max: u32,
    /// Most bytes in a segment.
    pub size_max: u32,
    /// Size of the logical block announced to the driver.
    pub blk_size: u32,
    /// The disk can only be read even if the backend takes writes.
    pub read_only: bool,
    /// Identifier for GET_ID (at most 20 bytes, filled up with zeros).
    pub serial: Vec<u8>,
}

/// What a [`VirtioBlkConfig`] says.
#[verifier::ext_equal]
pub struct BlkParams {
    pub queue_size: u16,
    pub seg_max: u32,
    pub size_max: u32,
    pub blk_size: u32,
    pub read_only: bool,
    pub serial: Seq<u8>,
}

impl View for VirtioBlkConfig {
    type V = BlkParams;

    open spec fn view(&self) -> BlkParams {
        BlkParams {
            queue_size: self.queue_size,
            seg_max: self.seg_max,
            size_max: self.size_max,
            blk_size: self.blk_size,
            read_only: self.read_only,
            serial: self.serial@,
        }
    }
}

impl Default for VirtioBlkConfig {
    fn default() -> (r: Self)
        ensures
            r@ == (BlkParams {
                queue_size: 256,
                seg_max: 254,
                size_max: 0x10_0000,
                blk_size: 512,
                read_only: false,
                serial: seq![118u8, 101, 116, 114, 111, 45, 98, 108, 107],
            }),
    {
        // "vetro-blk"
        let serial: Vec<u8> = vec![118u8, 101, 116, 114, 111, 45, 98, 108, 107];
        VirtioBlkConfig {
            queue_size: 256,
            seg_max: 254,
            size_max: 0x10_0000,
            blk_size: 512,
            read_only: false,
            serial,
        }
    }
}

/// How the treatment of a request ended.
#[derive(Clone, Copy, Debug, PartialEq, Eq)]
pub enum Outcome {
    /// Bytes written into the driver's buffers (data + status).
    Done(u32),
    /// The backend is not ready: try again.
    Retry,
    /// Error of the queue.
    Fault(QueueError),
}

/// How a transfer between the disk and a chain ended.
#[derive(Clone, Copy, Debug, PartialEq, Eq)]
pub enum Transfer {
    Whole,
    /// Refused or failed, with the data bytes that the chain got before: IOERR.
    Failed(BlockError, u64),
    NotReady,
    Fault(QueueError),
}

/// How a request was carried out, before its status is written.
#[derive(Clone, Copy, Debug, PartialEq, Eq)]
pub enum Reply {
    /// Status and data bytes written.
    Status(u8, u64),
    Retry,
    Fault(QueueError),
}

pub struct VirtioBlk<B> {
    pub backend: B,
    pub cfg: VirtioBlkConfig,
    pub pending: Option<DescChain>,
}

/// What a [`VirtioBlk`] holds.
#[verifier::ext_equal]
pub struct Blk<M> {
    pub disk: M,
    pub cfg: BlkParams,
    pub pending: Option<Chain>,
}

pub open spec fn chain_view(c: Option<DescChain>) -> Option<Chain> {
    match c {
        Some(c) => Some(c@),
        None => None,
    }
}

impl<B: BlockBackend> View for VirtioBlk<B> {
    type V = Blk<B::Model>;

    open spec fn view(&self) -> Blk<B::Model> {
        Blk { disk: self.backend.model(), cfg: self.cfg@, pending: chain_view(self.pending) }
    }
}

pub open spec fn blk_locked<B: BlockBackend>(s: Blk<B::Model>) -> bool {
    s.cfg.read_only || B::locked(s.disk)
}

/// Capacity in sectors.
pub open spec fn blk_capacity<B: BlockBackend>(s: Blk<B::Model>) -> u64 {
    B::bytes(s.disk) / 512
}

/// The configuration space: capacity, size_max, seg_max, blk_size and the number
/// of queues, the rest zero.
pub open spec fn blk_config<B: BlockBackend>(s: Blk<B::Model>) -> Seq<u8> {
    le64_bytes(blk_capacity::<B>(s)) + le32_bytes(s.cfg.size_max) + le32_bytes(s.cfg.seg_max)
        + zeros(4) + le32_bytes(s.cfg.blk_size) + zeros(10) + le16_bytes(1)
}

/// The identifier that GET_ID gives.
pub open spec fn identifier(serial: Seq<u8>) -> Seq<u8> {
    if serial.len() >= 20 {
        serial.take(20)
    } else {
        serial + zeros((20 - serial.len()) as nat)
    }
}

/// The rest of a write to the disk of `len` bytes of the chain (after its
/// header), `done` of them already written.
pub open spec fn blk_stored<B: BlockBackend>(
    d: B::Model,
    c: Chain,
    m: Mem,
    sector: u64,
    len: nat,
    done: nat,
) -> (B::Model, Transfer)
    decreases len - done,
{
    if done >= len {
        (d, Transfer::Whole)
    } else {
        let n = min_len((len - done) as nat, 65_536);
        let at = (sector + done / 512) as u64;
        match gathered(m, c.readable, 16 + done as int, n as int) {
            Err(e) => (d, Transfer::Fault(QueueError::Ram(e))),
            Ok(part) => {
                let d2 = B::write_next(d, at, part);
                match B::write_result(d, at, part) {
                    Ok(_) => blk_stored::<B>(d2, c, m, sector, len, done + n),
                    Err(BlockError::NotReady) => (d2, Transfer::NotReady),
                    Err(e) => (d2, Transfer::Failed(e, 0)),
                }
            },
        }
    }
}

/// The rest of a read from the disk of `len` bytes into the chain.
pub open spec fn blk_loaded<B: BlockBackend>(
    d: B::Model,
    c: Chain,
    m: Mem,
    sector: u64,
    len: nat,
    done: nat,
) -> (B::Model, Mem, Transfer)
    decreases len - done,
{
    if done >= len {
        (d, m, Transfer::Whole)
    } else {
        let n = min_len((len - done) as nat, 65_536);
        let at = (sector + done / 512) as u64;
        let d2 = B::read_next(d, at, n);
        match B::read_result(d, at, n) {
            Err(BlockError::NotReady) => (d2, m, Transfer::NotReady),
            Err(e) => (d2, m, Transfer::Failed(e, done as u64)),
            Ok(part) => {
                let (m2, r) = scattered(m, c.writable, done as int, part);
                match r {
                    Err(e) => (d2, m2, Transfer::Fault(QueueError::Ram(e))),
                    Ok(_) => blk_loaded::<B>(d2, c, m2, sector, len, done + n),
                }
            },
        }
    }
}

/// Whole sectors within the capacity.
pub open spec fn blk_fits<B: BlockBackend>(s: Blk<B::Model>, sector: u64, len: nat) -> bool {
    len % 512 == 0 && sector + len / 512 <= blk_capacity::<B>(s)
}

/// A transfer of `len` bytes between the disk, from `sector` on, and the chain.
pub open spec fn blk_transfer<B: BlockBackend>(
    s: Blk<B::Model>,
    c: Chain,
    m: Mem,
    sector: u64,
    len: nat,
    out: bool,
) -> (Blk<B::Model>, Mem, Transfer) {
    if out && blk_locked::<B>(s) {
        (s, m, Transfer::Failed(BlockError::ReadOnly, 0))
    } else if !blk_fits::<B>(s, sector, len) {
        (s, m, Transfer::Failed(BlockError::OutOfRange, 0))
    } else if out {
        let (d, t) = blk_stored::<B>(s.disk, c, m, sector, len, 0);
        (Blk { disk: d, ..s }, m, t)
    } else {
        let (d, m2, t) = blk_loaded::<B>(s.disk, c, m, sector, len, 0);
        (Blk { disk: d, ..s }, m2, t)
    }
}

/// What the end of a transfer means for the request.
pub open spec fn transfer_reply(t: Transfer, written: u64) -> Reply {
    match t {
        Transfer::Whole => Reply::Status(S_OK, written),
        Transfer::Failed(_, n) => Reply::Status(S_IOERR, n),
        Transfer::NotReady => Reply::Retry,
        Transfer::Fault(e) => Reply::Fault(e),
    }
}

/// A request of type `kind` is carried out.
#[verifier::opaque]
pub open spec fn blk_replied<B: BlockBackend>(
    s: Blk<B::Model>,
    c: Chain,
    m: Mem,
    kind: u32,
    sector: u64,
) -> (Blk<B::Model>, Mem, Reply) {
    let status_at = (total(c.writable) - 1) as nat;
    if kind == T_IN {
        let (s2, m2, t) = blk_transfer::<B>(s, c, m, sector, status_at, false);
        (s2, m2, transfer_reply(t, status_at as u64))
    } else if kind == T_OUT {
        let (s2, m2, t) = blk_transfer::<B>(
            s,
            c,
            m,
            sector,
            (total(c.readable) - 16) as nat,
            true,
        );
        (s2, m2, transfer_reply(t, 0))
    } else if kind == T_FLUSH {
        let s2 = Blk { disk: B::flush_next(s.disk), ..s };
        match B::flush_result(s.disk) {
            Ok(_) => (s2, m, Reply::Status(S_OK, 0)),
            Err(BlockError::NotReady) => (s2, m, Reply::Retry),
            Err(_) => (s2, m, Reply::Status(S_IOERR, 0)),
        }
    } else if kind == T_GET_ID {
        let len = min_len(status_at, 20);
        let (m2, r) = scattered(m, c.writable, 0, identifier(s.cfg.serial).take(len as int));
        match r {
            Ok(_) => (s, m2, Reply::Status(S_OK, len as u64)),
            Err(e) => (s, m2, Reply::Fault(QueueError::Ram(e))),
        }
    } else {
        (s, m, Reply::Status(S_UNSUPP, 0))
    }
}

/// A request is treated: the header is read, the request carried out and its
/// status written at the end of the chain.
#[verifier::opaque]
pub open spec fn blk_handled<B: BlockBackend>(s: Blk<B::Model>, c: Chain, m: Mem) -> (
    Blk<B::Model>,
    Mem,
    Outcome,
) {
    match gathered(m, c.readable, 0, 16) {
        Err(e) => (s, m, Outcome::Fault(QueueError::Ram(e))),
        Ok(hdr) => if hdr.len() < 16 {
            (s, m, Outcome::Fault(QueueError::Malformed("intestazione virtio-blk incompleta")))
        } else if total(c.writable) == 0 {
            (s, m, Outcome::Fault(QueueError::Malformed("byte di stato virtio-blk mancante")))
        } else {
            let (s2, m2, reply) = blk_replied::<B>(s, c, m, le32_at(hdr, 0), le64_at(hdr, 8));
            match reply {
                Reply::Retry => (s2, m2, Outcome::Retry),
                Reply::Fault(e) => (s2, m2, Outcome::Fault(e)),
                Reply::Status(status, written) => {
                    let (m3, r) = scattered(m2, c.writable, total(c.writable) - 1, seq![status]);
                    match r {
                        Ok(_) => (s2, m3, Outcome::Done((written as u32 + 1) as u32)),
                        Err(e) => (s2, m3, Outcome::Fault(QueueError::Ram(e))),
                    }
                },
            }
        },
    }
}

/// The requests are treated one after another, the pending one first, at most
/// `fuel` of them.
pub open spec fn blk_served<B: BlockBackend>(s: Blk<B::Model>, q: Virtqueue, m: Mem, fuel: nat) -> (
    Blk<B::Model>,
    Virtqueue,
    Mem,
    Result<(), QueueError>,
)
    decreases fuel,
{
    if fuel == 0 {
        (s, q, m, Ok(()))
    } else {
        let (q1, m1, next) = match s.pending {
            Some(c) => (q, m, Ok(Some(c))),
            None => q.popped(m),
        };
        match next {
            Err(e) => (s, q1, m1, Err(e)),
            Ok(None) => (s, q1, m1, Ok(())),
            Ok(Some(c)) => {
                let (s2, m2, outcome) = blk_handled::<B>(Blk { pending: None, ..s }, c, m1);
                match outcome {
                    Outcome::Fault(e) => (s2, q1, m2, Err(e)),
                    Outcome::Retry => (Blk { pending: Some(c), ..s2 }, q1, m2, Ok(())),
                    // A queue without entries has no place for the answer.
                    Outcome::Done(len) => if q1.size == 0 {
                        (s2, q1, m2, Ok(()))
                    } else {
                        let (q3, m3, r) = q1.returned(m2, c.head, len);
                        match r {
                            Err(e) => (s2, q3, m3, Err(QueueError::Ram(e))),
                            Ok(_) => blk_served::<B>(s2, q3, m3, (fuel - 1) as nat),
                        }
                    },
                }
            },
        }
    }
}

impl<B: BlockBackend> VirtioBlk<B> {
    pub open spec fn wf(self) -> bool {
        &&& B::sound(self.backend.model())
        &&& self.pending matches Some(c) ==> c@.countable()
    }

    pub fn new(backend: B, cfg: VirtioBlkConfig) -> (r: Self)
        requires
            B::sound(backend.model()),
        ensures
            r.wf(),
            r@ == (Blk { disk: backend.model(), cfg: cfg@, pending: None }),
    {
        VirtioBlk { backend, cfg, pending: None }
    }

    pub fn backend(&self) -> (r: &B)
        ensures
            *r == self.backend,
            r.model() == self@.disk,
    {
        &self.backend
    }

    pub fn backend_mut(&mut self) -> (r: &mut B)
        ensures
            *r == old(self).backend,
            r.model() == old(self)@.disk,
            final(self)@ == (Blk { disk: final(r).model(), ..old(self)@ }),
            final(self).backend == *final(r),
            final(self).pending == old(self).pending,
    {
        &mut self.backend
    }

    /// Typed access to the backend.
    pub fn backend_as_mut<T>(&mut self) -> (r: Option<&mut T>) where B: Holds<T>
        ensures
            match r {
                Some(t) => {
                    &&& Holds::<T>::held(&old(self).backend) == Some(*t)
                    &&& Holds::<T>::held(&final(self).backend) == Some(*final(t))
                    &&& final(self).cfg == old(self).cfg
                    &&& final(self).pending == old(self).pending
                },
                None => Holds::<T>::held(&old(self).backend) is None && *final(self) == *old(self),
            },
    {
        Holds::<T>::get_mut(&mut self.backend)
    }

    pub fn is_read_only(&self) -> (r: bool)
        requires
            B::sound(self@.disk),
        ensures
            r == blk_locked::<B>(self@),
    {
        self.cfg.read_only || self.backend.read_only()
    }

    /// Capacity in sectors of 512 bytes.
    pub fn capacity(&self) -> (r: u64)
        requires
            B::sound(self@.disk),
        ensures
            r == blk_capacity::<B>(self@),
    {
        self.backend.size() / BLK_SECTOR_SIZE
    }

    /// A request waits for the backend.
    pub fn has_pending(&self) -> (r: bool)
        ensures
            r == (self@.pending is Some),
    {
        self.pending.is_some()
    }

    fn config_bytes(&self) -> (r: Vec<u8>)
        requires
            self.wf(),
        ensures
            r@ == blk_config::<B>(self@),
    {
        let mut c: Vec<u8> = Vec::new();
        push_le64(&mut c, self.capacity());
        push_le32(&mut c, self.cfg.size_max);
        push_le32(&mut c, self.cfg.seg_max);
        push_zeros(&mut c, 4);
        push_le32(&mut c, self.cfg.blk_size);
        push_zeros(&mut c, 10);
        push_le16(&mut c, 1);
        assert(c@ =~= blk_config::<B>(self@));
        c
    }

    /// Writes `len` bytes of the chain, after its header, to the disk.
    fn store<R: GuestRam>(&mut self, c: &DescChain, ram: &R, sector: u64, len: u64) -> (r: Transfer)
        requires
            old(self).wf(),
            len % 512 == 0,
            len + 16 <= total(c@.readable),
            sector + len / 512 <= u64::MAX,
            total(c@.readable) <= u64::MAX,
        ensures
            final(self).wf(),
            final(self).cfg == old(self).cfg,
            final(self)@ == (Blk {
                disk: blk_stored::<B>(old(self)@.disk, c@, ram.mem(), sector, len as nat, 0).0,
                ..old(self)@
            }),
            r == blk_stored::<B>(old(self)@.disk, c@, ram.mem(), sector, len as nat, 0).1,
            r matches Transfer::Failed(_, n) ==> n == 0,
    {
        let mut done: u64 = 0;
        while done < len
            invariant
                self.wf(),
                done <= len,
                len + 16 <= total(c@.readable) <= u64::MAX,
                sector + len / 512 <= u64::MAX,
                self.cfg == old(self).cfg,
                self.pending == old(self).pending,
                blk_stored::<B>(old(self)@.disk, c@, ram.mem(), sector, len as nat, 0)
                    == blk_stored::<B>(
                    self@.disk,
                    c@,
                    ram.mem(),
                    sector,
                    len as nat,
                    done as nat,
                ),
            decreases len - done,
        {
            let n: u64 = if len - done <= CHUNK {
                len - done
            } else {
                CHUNK
            };
            let at: u64 = sector + done / BLK_SECTOR_SIZE;
            match c.read_part(ram, 16 + done, n) {
                Err(e) => {
                    return Transfer::Fault(QueueError::Ram(e));
                },
                Ok(part) => match self.backend.write_sectors(at, part.as_slice()) {
                    Ok(_) => {},
                    Err(BlockError::NotReady) => {
                        return Transfer::NotReady;
                    },
                    Err(e) => {
                        return Transfer::Failed(e, 0);
                    },
                },
            }
            done = done + n;
        }
        Transfer::Whole
    }

    /// Reads `len` bytes of the disk into the chain.
    fn load<R: GuestRam>(&mut self, c: &DescChain, ram: &mut R, sector: u64, len: u64) -> (r: Transfer)
        requires
            old(self).wf(),
            len % 512 == 0,
            sector + len / 512 <= u64::MAX,
        ensures
            final(self).wf(),
            final(self).cfg == old(self).cfg,
            final(self)@ == (Blk {
                disk: blk_loaded::<B>(
                    old(self)@.disk,
                    c@,
                    old(ram).mem(),
                    sector,
                    len as nat,
                    0,
                ).0,
                ..old(self)@
            }),
            final(ram).mem() == blk_loaded::<B>(
                old(self)@.disk,
                c@,
                old(ram).mem(),
                sector,
                len as nat,
                0,
            ).1,
            r == blk_loaded::<B>(old(self)@.disk, c@, old(ram).mem(), sector, len as nat, 0).2,
            r matches Transfer::Failed(_, n) ==> n % 512 == 0,
    {
        let mut done: u64 = 0;
        while done < len
            invariant
                self.wf(),
                done <= len,
                done % 512 == 0,
                len % 512 == 0,
                sector + len / 512 <= u64::MAX,
                self.cfg == old(self).cfg,
                self.pending == old(self).pending,
                blk_loaded::<B>(old(self)@.disk, c@, old(ram).mem(), sector, len as nat, 0)
                    == blk_loaded::<B>(
                    self@.disk,
                    c@,
                    ram.mem(),
                    sector,
                    len as nat,
                    done as nat,
                ),
            decreases len - done,
        {
            let n: u64 = if len - done <= CHUNK {
                len - done
            } else {
                CHUNK
            };
            let at: u64 = sector + done / BLK_SECTOR_SIZE;
            let mut part: Vec<u8> = crate::bytes::zeroed(n as usize);
            match self.backend.read_sectors(at, part.as_mut_slice()) {
                Err(BlockError::NotReady) => {
                    return Transfer::NotReady;
                },
                Err(e) => {
                    return Transfer::Failed(e, done);
                },
                Ok(_) => match c.write(ram, done, part.as_slice()) {
                    Ok(_) => {},
                    Err(e) => {
                        return Transfer::Fault(QueueError::Ram(e));
                    },
                },
            }
            done = done + n;
        }
        Transfer::Whole
    }

    /// Transfers `len` bytes between the disk (from `sector` on) and the chain:
    /// writable data from offset 0 for IN, readable data from offset 16 for OUT.
    fn transfer<R: GuestRam>(
        &mut self,
        c: &DescChain,
        ram: &mut R,
        sector: u64,
        len: u64,
        out: bool,
    ) -> (r: Transfer)
        requires
            old(self).wf(),
            out ==> len + 16 <= total(c@.readable) <= u64::MAX,
        ensures
            final(self).wf(),
            final(self).cfg == old(self).cfg,
            ({
                let goal = blk_transfer::<B>(
                    old(self)@,
                    c@,
                    old(ram).mem(),
                    sector,
                    len as nat,
                    out,
                );
                final(self)@ == goal.0 && final(ram).mem() == goal.1 && r == goal.2
            }),
            r matches Transfer::Failed(_, n) ==> n % 512 == 0,
    {
        if out && self.is_read_only() {
            return Transfer::Failed(BlockError::ReadOnly, 0);
        }
        if len % BLK_SECTOR_SIZE != 0 {
            return Transfer::Failed(BlockError::OutOfRange, 0);
        }
        match sector.checked_add(len / BLK_SECTOR_SIZE) {
            None => {
                return Transfer::Failed(BlockError::OutOfRange, 0);
            },
            Some(end) => {
                if end > self.capacity() {
                    return Transfer::Failed(BlockError::OutOfRange, 0);
                }
            },
        }
        if out {
            self.store(c, ram, sector, len)
        } else {
            self.load(c, ram, sector, len)
        }
    }

    fn reply_of(t: Transfer, written: u64) -> (r: Reply)
        ensures
            r == transfer_reply(t, written),
    {
        match t {
            Transfer::Whole => Reply::Status(S_OK, written),
            Transfer::Failed(_, n) => Reply::Status(S_IOERR, n),
            Transfer::NotReady => Reply::Retry,
            Transfer::Fault(e) => Reply::Fault(e),
        }
    }

    fn identifier(&self, len: usize) -> (r: Vec<u8>)
        requires
            len <= 20,
        ensures
            r@ == identifier(self@.cfg.serial).take(len as int),
    {
        let mut id: Vec<u8> = Vec::new();
        let n: usize = if self.cfg.serial.len() <= ID_BYTES {
            self.cfg.serial.len()
        } else {
            ID_BYTES
        };
        push_bytes(&mut id, vstd::slice::slice_subrange(self.cfg.serial.as_slice(), 0, n));
        push_zeros(&mut id, ID_BYTES - n);
        assert(id@ =~= identifier(self@.cfg.serial));
        id.truncate(len);
        id
    }

    fn reply<R: GuestRam>(&mut self, c: &DescChain, ram: &mut R, kind: u32, sector: u64) -> (r: Reply)
        requires
            old(self).wf(),
            c@.countable(),
            total(c@.writable) > 0,
            total(c@.readable) >= 16,
        ensures
            final(self).wf(),
            final(self).cfg == old(self).cfg,
            ({
                let goal = blk_replied::<B>(old(self)@, c@, old(ram).mem(), kind, sector);
                final(self)@ == goal.0 && final(ram).mem() == goal.1 && r == goal.2
            }),
            r matches Reply::Status(_, written) ==> written % 512 == 0 || written <= 20,
    {
        reveal(blk_replied);
        let readable: u64 = c.readable_len();
        let status_at: u64 = c.writable_len() - 1;
        match kind {
            T_IN => {
                let t: Transfer = self.transfer(c, ram, sector, status_at, false);
                Self::reply_of(t, status_at)
            },
            T_OUT => {
                let t: Transfer = self.transfer(c, ram, sector, readable - 16, true);
                Self::reply_of(t, 0)
            },
            T_FLUSH => match self.backend.flush() {
                Ok(_) => Reply::Status(S_OK, 0),
                Err(BlockError::NotReady) => Reply::Retry,
                Err(_) => Reply::Status(S_IOERR, 0),
            },
            T_GET_ID => {
                let len: usize = if status_at <= ID_BYTES as u64 {
                    status_at as usize
                } else {
                    ID_BYTES
                };
                let id: Vec<u8> = self.identifier(len);
                match c.write(ram, 0, id.as_slice()) {
                    Ok(_) => Reply::Status(S_OK, len as u64),
                    Err(e) => Reply::Fault(QueueError::Ram(e)),
                }
            },
            _ => Reply::Status(S_UNSUPP, 0),
        }
    }

    fn handle<R: GuestRam>(&mut self, c: &DescChain, ram: &mut R) -> (r: Outcome)
        requires
            old(self).wf(),
            c@.countable(),
        ensures
            final(self).wf(),
            final(self).cfg == old(self).cfg,
            ({
                let goal = blk_handled::<B>(old(self)@, c@, old(ram).mem());
                final(self)@ == goal.0 && final(ram).mem() == goal.1 && r == goal.2
            }),
    {
        reveal(blk_handled);
        let hdr: Vec<u8> = match c.read_part(ram, 0, 16) {
            Ok(h) => h,
            Err(e) => {
                return Outcome::Fault(QueueError::Ram(e));
            },
        };
        proof {
            lemma_gathered_len(ram.mem(), c@.readable, 0, 16);
        }
        if hdr.len() < 16 {
            return Outcome::Fault(QueueError::Malformed("intestazione virtio-blk incompleta"));
        }
        let room: u64 = c.writable_len();
        if room == 0 {
            return Outcome::Fault(QueueError::Malformed("byte di stato virtio-blk mancante"));
        }
        let kind: u32 = le32(hdr.as_slice(), 0);
        let sector: u64 = le64(hdr.as_slice(), 8);
        match self.reply(c, ram, kind, sector) {
            Reply::Retry => Outcome::Retry,
            Reply::Fault(e) => Outcome::Fault(e),
            Reply::Status(status, written) => {
                let one: Vec<u8> = vec![status];
                assert(one@ =~= seq![status]);
                match c.write(ram, room - 1, one.as_slice()) {
                    Ok(_) => {
                        assert(written % 512 == 0 || written <= 20 ==> (written as u32)
                            < 0xFFFF_FFFF) by (bit_vector);
                        Outcome::Done(written as u32 + 1)
                    },
                    Err(e) => Outcome::Fault(QueueError::Ram(e)),
                }
            },
        }
    }

    /// Treats the requests of the queue.
    fn serve<R: GuestRam>(&mut self, q: &mut Virtqueue, ram: &mut R) -> (r: Result<(), QueueError>)
        requires
            old(self).wf(),
            old(q).wf(),
        ensures
            final(self).wf(),
            final(q).wf(),
            final(self).cfg == old(self).cfg,
            ({
                let goal = blk_served::<B>(
                    old(self)@,
                    *old(q),
                    old(ram).mem(),
                    SERVICE_LIMIT as nat,
                );
                &&& final(self)@ == goal.0
                &&& *final(q) == goal.1
                &&& final(ram).mem() == goal.2
                &&& r == goal.3
            }),
    {
        let mut fuel: u64 = SERVICE_LIMIT;
        while fuel > 0
            invariant
                self.wf(),
                q.wf(),
                self.cfg == old(self).cfg,
                blk_served::<B>(old(self)@, *old(q), old(ram).mem(), SERVICE_LIMIT as nat)
                    == blk_served::<B>(self@, *q, ram.mem(), fuel as nat),
            decreases fuel,
        {
            let ghost before = self@;
            let chain: DescChain = match self.pending.take() {
                Some(c) => c,
                None => match q.pop(ram) {
                    Err(e) => {
                        return Err(e);
                    },
                    Ok(None) => {
                        return Ok(());
                    },
                    Ok(Some(c)) => c,
                },
            };
            assert(self@ =~= Blk { pending: None, ..before });
            proof {
                lemma_chain_countable(chain@);
            }
            match self.handle(&chain, ram) {
                Outcome::Fault(e) => {
                    return Err(e);
                },
                Outcome::Retry => {
                    self.pending = Some(chain);
                    return Ok(());
                },
                Outcome::Done(len) => {
                    if q.size == 0 {
                        return Ok(());
                    }
                    match q.push_used(ram, chain.head, len) {
                        Ok(_) => {},
                        Err(e) => {
                            return Err(QueueError::Ram(e));
                        },
                    }
                },
            }
            fuel = fuel - 1;
        }
        Ok(())
    }
}

impl<B: BlockBackend> VirtioDevice for VirtioBlk<B> {
    open spec fn dev_inv(&self) -> bool {
        self.wf()
    }

    open spec fn id(&self) -> u32 {
        ID_BLOCK
    }

    open spec fn offers(&self) -> u64 {
        F_SIZE_MAX | F_SEG_MAX | F_BLK_SIZE | F_FLUSH | if blk_locked::<B>(self@) {
            F_RO
        } else {
            0u64
        }
    }

    open spec fn sizes(&self) -> Seq<u16> {
        seq![self.cfg.queue_size]
    }

    open spec fn config(&self) -> Seq<u8> {
        blk_config::<B>(self@)
    }

    open spec fn configured(pre: Self, offset: u64, data: Seq<u8>, post: Self) -> bool {
        post == pre
    }

    open spec fn agreed(pre: Self, features: u64, post: Self, ok: bool) -> bool {
        post == pre && ok
    }

    open spec fn cleared(pre: Self, post: Self) -> bool {
        post@ == (Blk { pending: None, ..pre@ })
    }

    open spec fn served(
        pre: Self,
        before: Work,
        post: Self,
        after: Work,
        r: Result<(), QueueError>,
    ) -> bool {
        let goal = blk_served::<B>(pre@, before.queues[0], before.mem, SERVICE_LIMIT as nat);
        &&& post@ == goal.0
        &&& after == (Work { queues: before.queues.update(0, goal.1), mem: goal.2, ..before })
        &&& r == goal.3
    }

    fn device_id(&self) -> (r: u32) {
        ID_BLOCK
    }

    fn features(&self) -> (r: u64) {
        let ro: u64 = if self.is_read_only() {
            F_RO
        } else {
            0
        };
        F_SIZE_MAX | F_SEG_MAX | F_BLK_SIZE | F_FLUSH | ro
    }

    fn queue_max_sizes(&self) -> (r: Vec<u16>) {
        vec![self.cfg.queue_size]
    }

    fn read_config(&self, offset: u64, data: &mut [u8]) {
        let c: Vec<u8> = self.config_bytes();
        read_config_bytes(c.as_slice(), offset, data);
    }

    fn write_config(&mut self, offset: u64, data: &[u8]) {
    }

    fn negotiate(&mut self, features: u64) -> (r: bool) {
        true
    }

    fn reset(&mut self) {
        self.pending = None;
    }

    fn service<R: GuestRam>(&mut self, ctx: &mut ServiceCtx, ram: &mut R) -> (r: Result<
        (),
        QueueError,
    >) {
        let mut q: Virtqueue = ctx.queues[0];
        let r = self.serve(&mut q, ram);
        ctx.queues.set(0, q);
        r
    }
}

} // verus!
