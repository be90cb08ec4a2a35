//! virtio-console with one port.
//!
//! Without MULTIPORT: the queues 0 = receive and 1 = transmit of port 0, no
//! control messages. Feature offered: EMERG_WRITE (a write of `emerg_wr` in the
//! configuration emits a byte even before the queues are ready).
//!
//! Receive: a chain is taken only if buffers are free, and the backend fills at
//! most the writable room; if it has nothing the chain goes back to the
//! available ring.
use std::collections::VecDeque;
use vstd::prelude::*;
use crate::bytes::{drain_into, le32_bytes, min_len, push_bytes, push_le32, push_zeros, zeros};
use crate::platform::bus::Holds;
use crate::platform::virtio::queue::{gathered, lemma_gathered_len, scattered, total, Chain, DescChain, QueueError, Virtqueue};
use crate::platform::virtio::ram::{GuestRam, Mem};
use crate::platform::virtio::{read_config_bytes, ServiceCtx, VirtioDevice, Work, ID_CONSOLE, SERVICE_LIMIT};

verus! {

pub const F_SIZE: u64 = 0x1;
pub const F_MULTIPORT: u64 = 0x2;
pub const F_EMERG_WRITE: u64 = 0x4;

/// Offset of `emerg_wr` in the configuration.
pub const CFG_EMERG_WR: u64 = 8;

/// Most bytes for one chain in reception and for one piece in transmission.
pub const CHUNK: u64 = 65_536;

/// The byte stream of the port, seen from the device. By default the spec
/// functions are those of a stream that takes everything and gives nothing.
pub trait ConsoleBackend: Sized {
    type Model;

    spec fn model(&self) -> Self::Model;

    open spec fn write_next(m: Self::Model, data: Seq<u8>) -> Self::Model {
        m
    }

    open spec fn read_next(m: Self::Model, room: nat) -> Self::Model {
        m
    }

    /// The bytes that a read with that much room gives.
    open spec fn read_data(m: Self::Model, room: nat) -> Seq<u8> {
        Seq::empty()
    }

    /// Bytes written by the guest.
    fn write(&mut self, data: &[u8])
        ensures
            final(self).model() == Self::write_next(old(self).model(), data@),
    ;

    /// Fills `buf` with the bytes that arrive for the guest; 0 if there are none.
    fn read(&mut self, buf: &mut [u8]) -> (n: usize)
        ensures
            final(self).model() == Self::read_next(old(self).model(), old(buf)@.len()),
            final(buf)@.len() == old(buf)@.len(),
            n <= old(buf)@.len(),
            final(buf)@.take(n as int) == Self::read_data(old(self).model(), old(buf)@.len()),
    ;
}

/// A backend in memory: `input` towards the guest, `output` from the guest.
#[derive(Clone, Debug, Default)]
pub struct BufferConsole {
    pub input: VecDeque<u8>,
    pub output: Vec<u8>,
}

/// What a [`BufferConsole`] holds.
#[verifier::ext_equal]
pub struct Buffers {
    pub input: Seq<u8>,
    pub output: Seq<u8>,
}

impl View for BufferConsole {
    type V = Buffers;

    open spec fn view(&self) -> Buffers {
        Buffers { input: self.input@, output: self.output@ }
    }
}

impl ConsoleBackend for BufferConsole {
    type Model = Buffers;

    open spec fn model(&self) -> Buffers {
        self@
    }

    open spec fn write_next(m: Buffers, data: Seq<u8>) -> Buffers {
        Buffers { output: m.output + data, ..m }
    }

    open spec fn read_next(m: Buffers, room: nat) -> Buffers {
        Buffers { input: m.input.skip(min_len(m.input.len(), room) as int), ..m }
    }

    open spec fn read_data(m: Buffers, room: nat) -> Seq<u8> {
        m.input.take(min_len(m.input.len(), room) as int)
    }

    fn write(&mut self, data: &[u8]) {
        push_bytes(&mut self.output, data);
    }

    fn read(&mut self, buf: &mut [u8]) -> (n: usize) {
        drain_into(&mut self.input, buf)
    }
}

pub struct VirtioConsole<C> {
    pub backend: C,
}

/// The configuration space: no columns and rows, one port.
pub open spec fn console_config() -> Seq<u8> {
    zeros(4) + le32_bytes(1) + zeros(4)
}

/// The rest of a chain, from `off` on, goes to the backend in pieces.
pub open spec fn console_forwarded<C: ConsoleBackend>(
    b: C::Model,
    c: Chain,
    m: Mem,
    off: nat,
) -> (C::Model, Result<(), QueueError>)
    decreases total(c.readable) - off,
{
    let piece = min_len(total(c.readable), 65_536) as int;
    match gathered(m, c.readable, off as int, piece) {
        Err(e) => (b, Err(QueueError::Ram(e))),
        Ok(d) => if d.len() == 0 || off + d.len() > total(c.readable) {
            (b, Ok(()))
        } else {
            console_forwarded::<C>(C::write_next(b, d), c, m, off + d.len())
        },
    }
}

/// The chains of the transmit queue go to the backend.
pub open spec fn console_sent<C: ConsoleBackend>(b: C::Model, q: Virtqueue, m: Mem, fuel: nat) -> (
    C::Model,
    Virtqueue,
    Mem,
    Result<(), QueueError>,
)
    decreases fuel,
{
    if fuel == 0 {
        (b, q, m, Ok(()))
    } else {
        let (q1, m1, next) = q.popped(m);
        match next {
            Err(e) => (b, q1, m1, Err(e)),
            Ok(None) => (b, q1, m1, Ok(())),
            Ok(Some(c)) => {
                let (b2, r) = console_forwarded::<C>(b, c, m1, 0);
                if r is Err {
                    (b2, q1, m1, r)
                } else {
                    let (q3, m3, r3) = q1.returned(m1, c.head, 0);
                    match r3 {
                        Err(e) => (b2, q3, m3, Err(QueueError::Ram(e))),
                        Ok(_) => console_sent::<C>(b2, q3, m3, (fuel - 1) as nat),
                    }
                }
            },
        }
    }
}

/// The backend's bytes go into the chains of the receive queue.
pub open spec fn console_received<C: ConsoleBackend>(
    b: C::Model,
    q: Virtqueue,
    m: Mem,
    fuel: nat,
) -> (C::Model, Virtqueue, Mem, Result<(), QueueError>)
    decreases fuel,
{
    if fuel == 0 {
        (b, q, m, Ok(()))
    } else {
        match q.waiting(m) {
            Err(e) => (b, q, m, Err(e)),
            Ok(waiting) => if waiting == 0 {
                (b, q, m, Ok(()))
            } else {
                let (q1, m1, next) = q.popped(m);
                match next {
                    Err(e) => (b, q1, m1, Err(e)),
                    Ok(None) => (b, q1, m1, Ok(())),
                    Ok(Some(c)) => {
                        let room = min_len(total(c.writable), 65_536);
                        let b2 = C::read_next(b, room);
                        let d = C::read_data(b, room);
                        if d.len() == 0 {
                            let q2 = q1.rewound(1);
                            let (m2, r2) = q2.event_published(m1);
                            match r2 {
                                Err(e) => (b2, q2, m2, Err(QueueError::Ram(e))),
                                Ok(_) => (b2, q2, m2, Ok(())),
                            }
                        } else {
                            let (m2, r2) = scattered(m1, c.writable, 0, d);
                            match r2 {
                                Err(e) => (b2, q1, m2, Err(QueueError::Ram(e))),
                                Ok(n) => {
                                    let (q3, m3, r3) = q1.returned(m2, c.head, n as u32);
                                    match r3 {
                                        Err(e) => (b2, q3, m3, Err(QueueError::Ram(e))),
                                        Ok(_) => console_received::<C>(
                                            b2,
                                            q3,
                                            m3,
                                            (fuel - 1) as nat,
                                        ),
                                    }
                                },
                            }
                        }
                    },
                }
            },
        }
    }
}

/// One service: the transmit queue first, the receive queue after it.
pub open spec fn console_served<C: ConsoleBackend>(b: C::Model, w: Work) -> (
    C::Model,
    Work,
    Result<(), QueueError>,
) {
    let (b1, tx, m1, r1) = console_sent::<C>(b, w.queues[1], w.mem, SERVICE_LIMIT as nat);
    let w1 = Work { queues: w.queues.update(1, tx), mem: m1, ..w };
    if r1 is Err {
        (b1, w1, r1)
    } else {
        let (b2, rx, m2, r2) = console_received::<C>(b1, w1.queues[0], m1, SERVICE_LIMIT as nat);
        (b2, Work { queues: w1.queues.update(0, rx), mem: m2, ..w1 }, r2)
    }
}

impl<C: ConsoleBackend> VirtioConsole<C> {
    pub fn new(backend: C) -> (r: Self)
        ensures
            r.backend == backend,
    {
        VirtioConsole { backend }
    }

    pub fn backend_mut(&mut self) -> (r: &mut C)
        ensures
            *r == old(self).backend,
            final(self).backend == *final(r),
    {
        &mut self.backend
    }

    /// Typed access to the backend.
    pub fn backend_as_mut<T>(&mut self) -> (r: Option<&mut T>) where C: Holds<T>
        ensures
            match r {
                Some(t) => Holds::<T>::held(&old(self).backend) == Some(*t) && Holds::<T>::held(
                    &final(self).backend,
                ) == Some(*final(t)),
                None => Holds::<T>::held(&old(self).backend) is None && *final(self) == *old(self),
            },
    {
        Holds::<T>::get_mut(&mut self.backend)
    }

    fn config_bytes() -> (r: Vec<u8>)
        ensures
            r@ == console_config(),
    {
        let mut c: Vec<u8> = Vec::new();
        push_zeros(&mut c, 4);
        push_le32(&mut c, 1);
        push_zeros(&mut c, 4);
        assert(c@ =~= console_config());
        c
    }

    fn forward<R: GuestRam>(&mut self, c: &DescChain, ram: &R) -> (r: Result<(), QueueError>)
        requires
            c.wf(),
        ensures
            (final(self).backend.model(), r) == console_forwarded::<C>(
                old(self).backend.model(),
                c@,
                ram.mem(),
                0,
            ),
    {
        // In pieces: the length of the descriptors is decided by the guest.
        let len: u64 = c.readable_len();
        let piece: u64 = if len <= CHUNK {
            len
        } else {
            CHUNK
        };
        let mut off: u64 = 0;
        loop
            invariant
                len == total(c@.readable),
                piece == min_len(len as nat, 65_536),
                off <= len,
                console_forwarded::<C>(old(self).backend.model(), c@, ram.mem(), 0)
                    == console_forwarded::<C>(self.backend.model(), c@, ram.mem(), off as nat),
            decreases len - off,
        {
            proof {
                lemma_gathered_len(ram.mem(), c@.readable, off as int, piece as int);
            }
            match c.read_part(ram, off, piece) {
                Err(e) => {
                    return Err(QueueError::Ram(e));
                },
                Ok(d) => {
                    if d.len() == 0 {
                        return Ok(());
                    }
                    self.backend.write(d.as_slice());
                    off = off + d.len() as u64;
                },
            }
        }
    }

    fn transmit<R: GuestRam>(&mut self, q: &mut Virtqueue, ram: &mut R) -> (r: Result<
        (),
        QueueError,
    >)
        requires
            old(q).wf(),
        ensures
            final(q).wf(),
            (final(self).backend.model(), *final(q), final(ram).mem(), r) == console_sent::<C>(
                old(self).backend.model(),
                *old(q),
                old(ram).mem(),
                SERVICE_LIMIT as nat,
            ),
    {
        let mut fuel: u64 = SERVICE_LIMIT;
        while fuel > 0
            invariant
                q.wf(),
                console_sent::<C>(
                    old(self).backend.model(),
                    *old(q),
                    old(ram).mem(),
                    SERVICE_LIMIT as nat,
                ) == console_sent::<C>(self.backend.model(), *q, ram.mem(), fuel as nat),
            decreases fuel,
        {
            match q.pop(ram) {
                Err(e) => {
                    return Err(e);
                },
                Ok(None) => {
                    return Ok(());
                },
                Ok(Some(c)) => {
                    match self.forward(&c, ram) {
                        Ok(_) => {},
                        Err(e) => {
                            return Err(e);
                        },
                    }
                    match q.push_used(ram, c.head, 0) {
                        Ok(_) => {},
                        Err(e) => {
                            return Err(QueueError::Ram(e));
                        },
                    }
                },
            }
            fuel = fuel - 1;
        }
        Ok(())
    }

    fn receive<R: GuestRam>(&mut self, q: &mut Virtqueue, ram: &mut R) -> (r: Result<
        (),
        QueueError,
    >)
        requires
            old(q).wf(),
        ensures
            final(q).wf(),
            (final(self).backend.model(), *final(q), final(ram).mem(), r) == console_received::<C>(
                old(self).backend.model(),
                *old(q),
                old(ram).mem(),
                SERVICE_LIMIT as nat,
            ),
    {
        let mut fuel: u64 = SERVICE_LIMIT;
        while fuel > 0
            invariant
                q.wf(),
                console_received::<C>(
                    old(self).backend.model(),
                    *old(q),
                    old(ram).mem(),
                    SERVICE_LIMIT as nat,
                ) == console_received::<C>(self.backend.model(), *q, ram.mem(), fuel as nat),
            decreases fuel,
        {
            match q.available(ram) {
                Err(e) => {
                    return Err(e);
                },
                Ok(n) => {
                    if n == 0 {
                        return Ok(());
                    }
                },
            }
            match q.pop(ram) {
                Err(e) => {
                    return Err(e);
                },
                Ok(None) => {
                    return Ok(());
                },
                Ok(Some(c)) => {
                    let len: u64 = c.writable_len();
                    let room: u64 = if len <= CHUNK {
                        len
                    } else {
                        CHUNK
                    };
                    let mut buf: Vec<u8> = crate::bytes::zeroed(room as usize);
                    let n: usize = self.backend.read(buf.as_mut_slice());
                    if n == 0 {
                        return match q.rewind(ram, 1) {
                            Ok(_) => Ok(()),
                            Err(e) => Err(QueueError::Ram(e)),
                        };
                    }
                    let data: &[u8] = vstd::slice::slice_subrange(buf.as_slice(), 0, n);
                    assert(data@ =~= buf@.take(n as int));
                    let written: usize = match c.write(ram, 0, data) {
                        Ok(w) => w,
                        Err(e) => {
                            return Err(QueueError::Ram(e));
                        },
                    };
                    match q.push_used(ram, c.head, written as u32) {
                        Ok(_) => {},
                        Err(e) => {
                            return Err(QueueError::Ram(e));
                        },
                    }
                },
            }
            fuel = fuel - 1;
        }
        Ok(())
    }
}

impl<C: ConsoleBackend> VirtioDevice for VirtioConsole<C> {
    open spec fn dev_inv(&self) -> bool {
        true
    }

    open spec fn id(&self) -> u32 {
        ID_CONSOLE
    }

    open spec fn offers(&self) -> u64 {
        F_EMERG_WRITE
    }

    open spec fn sizes(&self) -> Seq<u16> {
        seq![128u16, 128u16]
    }

    open spec fn config(&self) -> Seq<u8> {
        console_config()
    }

    open spec fn configured(pre: Self, offset: u64, data: Seq<u8>, post: Self) -> bool {
        if offset == CFG_EMERG_WR && data.len() == 4 {
            post.backend.model() == C::write_next(pre.backend.model(), data.take(1))
        } else {
            post == pre
        }
    }

    open spec fn agreed(pre: Self, features: u64, post: Self, ok: bool) -> bool {
        post == pre && ok
    }

    open spec fn cleared(pre: Self, post: Self) -> bool {
        post == pre
    }

    open spec fn served(
        pre: Self,
        before: Work,
        post: Self,
        after: Work,
        r: Result<(), QueueError>,
    ) -> bool {
        (post.backend.model(), after, r) == console_served::<C>(pre.backend.model(), before)
    }

    fn device_id(&self) -> (r: u32) {
        ID_CONSOLE
    }

    fn features(&self) -> (r: u64) {
        F_EMERG_WRITE
    }

    fn queue_max_sizes(&self) -> (r: Vec<u16>) {
        vec![128u16, 128u16]
    }

    fn read_config(&self, offset: u64, data: &mut [u8]) {
        let c: Vec<u8> = Self::config_bytes();
        read_config_bytes(c.as_slice(), offset, data);
    }

    fn write_config(&mut self, offset: u64, data: &[u8]) {
        if offset == CFG_EMERG_WR && data.len() == 4 {
            let first: &[u8] = vstd::slice::slice_subrange(data, 0, 1);
            assert(first@ =~= data@.take(1));
            self.backend.write(first);
        }
    }

    fn negotiate(&mut self, features: u64) -> (r: bool) {
        true
    }

    fn reset(&mut self) {
    }

    fn service<R: GuestRam>(&mut self, ctx: &mut ServiceCtx, ram: &mut R) -> (r: Result<
        (),
        QueueError,
    >) {
        let mut tx: Virtqueue = ctx.queues[1];
        let sent = self.transmit(&mut tx, ram);
        ctx.queues.set(1, tx);
        match sent {
            Ok(_) => {},
            Err(e) => {
                return Err(e);
            },
        }
        let mut rx: Virtqueue = ctx.queues[0];
        let r = self.receive(&mut rx, ram);
        ctx.queues.set(0, rx);
        r
    }
}

} // verus!
