//! virtio-net, without offload.
//!
//! Queues: 0 = receive, 1 = transmit. Features: MAC, STATUS and, if enabled,
//! MRG_RXBUF. No checksum and no segmentation offload: the header (12 bytes with
//! VERSION_1) is always zero but for `num_buffers`.
//!
//! - Transmit: a buffer shorter than the header, or longer than the header and
//!   the longest frame, is an error of the queue; with the link down frames are
//!   dropped.
//! - Receive: the backend is asked only if buffers are free and the link is up.
//!   With MRG_RXBUF a frame is spread over several chains; if they are not enough
//!   they go back to the available ring and the frame waits. Without it a frame
//!   that does not fit in the chain is dropped (and the chain stays with the
//!   driver), counted in [`VirtioNet::rx_dropped`].
use std::collections::VecDeque;
use vstd::prelude::*;
use crate::bytes::{le16_bytes, push_bytes, push_le16, push_zeros, to_vec, zeros};
use crate::platform::bus::Holds;
use crate::platform::virtio::queue::{chains_view, lemma_total_bound, scattered, total, Chain, DescChain, QueueError, Virtqueue};
use crate::platform::virtio::ram::{GuestRam, Mem};
use crate::platform::virtio::{read_config_bytes, ServiceCtx, VirtioDevice, Work, ID_NET, SERVICE_LIMIT};

pub use crate::snapshot::frames_view;

verus! {

pub const F_MAC: u64 = 0x20;
pub const F_MRG_RXBUF: u64 = 0x8000;
pub const F_STATUS: u64 = 0x1_0000;

/// The header with VERSION_1 (with `num_buffers`).
pub const NET_HDR_LEN: usize = 12;
/// Bit of `status` in the configuration.
pub const S_LINK_UP: u16 = 1;
/// Longest frame accepted in transmission.
pub const MAX_FRAME: usize = 65535;

/// The network seen from the device: ethernet frames without the virtio header.
/// By default the spec functions are those of a cable with nobody at its end.
pub trait NetBackend: Sized {
    type Model;

    spec fn model(&self) -> Self::Model;

    open spec fn send_next(m: Self::Model, frame: Seq<u8>) -> Self::Model {
        m
    }

    open spec fn recv_next(m: Self::Model) -> Self::Model {
        m
    }

    open spec fn recv_result(m: Self::Model) -> Option<Seq<u8>> {
        None
    }

    /// A bound on the frames that are ready for the guest.
    open spec fn frames_ready(m: Self::Model) -> nat {
        0
    }

    /// Receiving a frame leaves fewer to receive.
    proof fn drains(m: Self::Model)
        ensures
            Self::recv_result(m) is Some ==> Self::frames_ready(Self::recv_next(m))
                < Self::frames_ready(m),
    ;

    /// Frame transmitted by the guest.
    fn send(&mut self, frame: &[u8])
        ensures
            final(self).model() == Self::send_next(old(self).model(), frame@),
    ;

    /// Next frame for the guest, if there is one. Called only when the guest has
    /// free receive buffers.
    fn recv(&mut self) -> (r: Option<Vec<u8>>)
        ensures
            final(self).model() == Self::recv_next(old(self).model()),
            match r {
                Some(f) => Self::recv_result(old(self).model()) == Some(f@),
                None => Self::recv_result(old(self).model()) is None,
            },
    ;
}

/// A backend in memory: `rx` towards the guest, `tx` from the guest.
#[derive(Clone, Debug, Default)]
pub struct QueueNet {
    pub rx: VecDeque<Vec<u8>>,
    pub tx: Vec<Vec<u8>>,
}

/// What a [`QueueNet`] holds.
#[verifier::ext_equal]
pub struct Frames {
    pub rx: Seq<Seq<u8>>,
    pub tx: Seq<Seq<u8>>,
}

impl View for QueueNet {
    type V = Frames;

    open spec fn view(&self) -> Frames {
        Frames { rx: frames_view(self.rx@), tx: frames_view(self.tx@) }
    }
}

impl NetBackend for QueueNet {
    type Model = Frames;

    open spec fn model(&self) -> Frames {
        self@
    }

    open spec fn send_next(m: Frames, frame: Seq<u8>) -> Frames {
        Frames { tx: m.tx.push(frame), ..m }
    }

    open spec fn recv_next(m: Frames) -> Frames {
        if m.rx.len() > 0 {
            Frames { rx: m.rx.skip(1), ..m }
        } else {
            m
        }
    }

    open spec fn recv_result(m: Frames) -> Option<Seq<u8>> {
        if m.rx.len() > 0 {
            Some(m.rx[0])
        } else {
            None
        }
    }

    open spec fn frames_ready(m: Frames) -> nat {
        m.rx.len()
    }

    proof fn drains(m: Frames) {
    }

    fn send(&mut self, frame: &[u8]) {
        self.tx.push(to_vec(frame));
        assert(self@ =~= Self::send_next(old(self)@, frame@));
    }

    fn recv(&mut self) -> (r: Option<Vec<u8>>) {
        let r = self.rx.pop_front();
        assert(self@ =~= Self::recv_next(old(self)@));
        r
    }
}

pub struct VirtioNet<N> {
    pub backend: N,
    pub mac: [u8; 6],
    pub link_up: bool,
    pub link_changed: bool,
    pub offer_mrg: bool,
    pub mrg: bool,
    pub pending_rx: Option<Vec<u8>>,
    pub rx_dropped: u64,
}

/// What a [`VirtioNet`] holds.
#[verifier::ext_equal]
pub struct Nic<M> {
    pub net: M,
    pub mac: Seq<u8>,
    pub link_up: bool,
    pub link_changed: bool,
    pub offer_mrg: bool,
    pub mrg: bool,
    pub pending_rx: Option<Seq<u8>>,
    pub rx_dropped: u64,
}

pub open spec fn bytes_view(f: Option<Vec<u8>>) -> Option<Seq<u8>> {
    match f {
        Some(f) => Some(f@),
        None => None,
    }
}

impl<N: NetBackend> View for VirtioNet<N> {
    type V = Nic<N::Model>;

    open spec fn view(&self) -> Nic<N::Model> {
        Nic {
            net: self.backend.model(),
            mac: self.mac@,
            link_up: self.link_up,
            link_changed: self.link_changed,
            offer_mrg: self.offer_mrg,
            mrg: self.mrg,
            pending_rx: bytes_view(self.pending_rx),
            rx_dropped: self.rx_dropped,
        }
    }
}

/// The configuration space: MAC, link status, one pair of queues.
pub open spec fn net_config<M>(s: Nic<M>) -> Seq<u8> {
    s.mac + le16_bytes(
        if s.link_up {
            S_LINK_UP
        } else {
            0
        },
    ) + le16_bytes(1) + zeros(2)
}

/// The chains of the transmit queue become frames of the backend.
pub open spec fn net_sent<N: NetBackend>(s: Nic<N::Model>, q: Virtqueue, m: Mem, fuel: nat) -> (
    Nic<N::Model>,
    Virtqueue,
    Mem,
    Result<(), QueueError>,
)
    decreases fuel,
{
    if fuel == 0 {
        (s, q, m, Ok(()))
    } else {
        let (q1, m1, next) = q.popped(m);
        match next {
            Err(e) => (s, q1, m1, Err(e)),
            Ok(None) => (s, q1, m1, Ok(())),
            Ok(Some(c)) => if total(c.readable) < 12 {
                (s, q1, m1, Err(QueueError::Malformed("intestazione virtio-net incompleta")))
            } else if total(c.readable) > 12 + 65535 {
                (s, q1, m1, Err(QueueError::Malformed("frame virtio-net oltre 64 KiB")))
            } else {
                match c.contents(m1, 12) {
                    Err(e) => (s, q1, m1, Err(QueueError::Ram(e))),
                    Ok(frame) => {
                        let s2 = if s.link_up {
                            Nic { net: N::send_next(s.net, frame), ..s }
                        } else {
                            s
                        };
                        let (q3, m3, r3) = q1.returned(m1, c.head, 0);
                        match r3 {
                            Err(e) => (s2, q3, m3, Err(QueueError::Ram(e))),
                            Ok(_) => net_sent::<N>(s2, q3, m3, (fuel - 1) as nat),
                        }
                    },
                }
            },
        }
    }
}

/// Bytes that a list of chains has room for.
pub open spec fn room_of(chains: Seq<Chain>) -> nat
    decreases chains.len(),
{
    if chains.len() == 0 {
        0
    } else {
        room_of(chains.drop_last()) + total(chains.last().writable)
    }
}

/// Chains are taken until they have room for `need` bytes (one chain only
/// without merging), or until there are no more.
pub open spec fn net_collected(
    q: Virtqueue,
    m: Mem,
    got: Seq<Chain>,
    need: int,
    mrg: bool,
    fuel: nat,
) -> (Virtqueue, Mem, Result<Seq<Chain>, QueueError>)
    decreases fuel,
{
    if fuel == 0 || room_of(got) >= need || (!mrg && got.len() > 0) {
        (q, m, Ok(got))
    } else {
        let (q1, m1, next) = q.popped(m);
        match next {
            Err(e) => (q1, m1, Err(e)),
            Ok(None) => (q1, m1, Ok(got)),
            Ok(Some(c)) => net_collected(q1, m1, got.push(c), need, mrg, (fuel - 1) as nat),
        }
    }
}

/// The packet, from its byte `off` on, is spread over the chains from `i` on.
pub open spec fn net_spread(
    q: Virtqueue,
    m: Mem,
    chains: Seq<Chain>,
    i: nat,
    pkt: Seq<u8>,
    off: nat,
) -> (Virtqueue, Mem, Result<(), QueueError>)
    decreases chains.len() - i,
{
    if i >= chains.len() {
        (q, m, Ok(()))
    } else {
        let (m1, r1) = scattered(m, chains[i as int].writable, 0, pkt.skip(off as int));
        match r1 {
            Err(e) => (q, m1, Err(QueueError::Ram(e))),
            Ok(n) => {
                let (q2, m2, r2) = q.returned(m1, chains[i as int].head, n as u32);
                match r2 {
                    Err(e) => (q2, m2, Err(QueueError::Ram(e))),
                    Ok(_) => net_spread(q2, m2, chains, i + 1, pkt, off + n),
                }
            },
        }
    }
}

/// A frame with its header: zero but for the number of buffers, modulo 2^16.
pub open spec fn framed(chains: nat, frame: Seq<u8>) -> Seq<u8> {
    zeros(10) + le16_bytes((chains % 0x1_0000) as u16) + frame
}

/// What a frame led to.
pub enum Taken {
    /// It was delivered or dropped: go on with the next.
    Next,
    /// It waits for buffers.
    Waits,
    Fault(QueueError),
}

/// A frame for the guest.
pub open spec fn net_taken<M>(s: Nic<M>, q: Virtqueue, m: Mem, frame: Seq<u8>) -> (
    Nic<M>,
    Virtqueue,
    Mem,
    Taken,
) {
    let need = 12 + frame.len();
    let (q1, m1, got) = net_collected(q, m, Seq::empty(), need as int, s.mrg, SERVICE_LIMIT as nat);
    match got {
        Err(e) => (s, q1, m1, Taken::Fault(e)),
        Ok(chains) => if room_of(chains) < need {
            let q2 = q1.rewound((chains.len() % 0x1_0000) as u16);
            let (m2, r2) = q2.event_published(m1);
            if let Err(e) = r2 {
                (s, q2, m2, Taken::Fault(QueueError::Ram(e)))
            } else if s.mrg || chains.len() == 0 {
                (Nic { pending_rx: Some(frame), ..s }, q2, m2, Taken::Waits)
            } else {
                (Nic { rx_dropped: s.rx_dropped.wrapping_add(1), ..s }, q2, m2, Taken::Next)
            }
        } else {
            let (q2, m2, r2) = net_spread(q1, m1, chains, 0, framed(chains.len(), frame), 0);
            match r2 {
                Ok(_) => (s, q2, m2, Taken::Next),
                Err(e) => (s, q2, m2, Taken::Fault(e)),
            }
        },
    }
}

/// The next frame to deliver: the one that waits, else the backend's if buffers
/// are free.
pub open spec fn net_next<N: NetBackend>(s: Nic<N::Model>, q: Virtqueue, m: Mem) -> (
    Nic<N::Model>,
    Result<Option<Seq<u8>>, QueueError>,
) {
    match s.pending_rx {
        Some(f) => (Nic { pending_rx: None, ..s }, Ok(Some(f))),
        None => match q.waiting(m) {
            Err(e) => (s, Err(e)),
            Ok(n) => if n > 0 {
                (Nic { net: N::recv_next(s.net), ..s }, Ok(N::recv_result(s.net)))
            } else {
                (s, Ok(None))
            },
        },
    }
}

/// A bound on the frames still to deliver: the one that waits and the backend's.
pub open spec fn frames_left<N: NetBackend>(s: Nic<N::Model>) -> nat {
    N::frames_ready(s.net) + if s.pending_rx is Some {
        1nat
    } else {
        0nat
    }
}

/// The backend's frames go into the chains of the receive queue.
pub open spec fn net_received<N: NetBackend>(s: Nic<N::Model>, q: Virtqueue, m: Mem) -> (
    Nic<N::Model>,
    Virtqueue,
    Mem,
    Result<(), QueueError>,
)
    decreases frames_left::<N>(s),
    via net_received_ends::<N>
{
    if !s.link_up {
        (s, q, m, Ok(()))
    } else {
        let (s1, next) = net_next::<N>(s, q, m);
        match next {
            Err(e) => (s1, q, m, Err(e)),
            Ok(None) => (s1, q, m, Ok(())),
            Ok(Some(frame)) => {
                let (s2, q2, m2, taken) = net_taken(s1, q, m, frame);
                match taken {
                    Taken::Fault(e) => (s2, q2, m2, Err(e)),
                    Taken::Waits => (s2, q2, m2, Ok(())),
                    Taken::Next => net_received::<N>(s2, q2, m2),
                }
            },
        }
    }
}

#[via_fn]
proof fn net_received_ends<N: NetBackend>(s: Nic<N::Model>, q: Virtqueue, m: Mem) {
    N::drains(s.net);
}

/// One service: a change of the link is announced, then the transmit queue, then
/// the receive queue.
pub open spec fn net_served<N: NetBackend>(s: Nic<N::Model>, w: Work) -> (
    Nic<N::Model>,
    Work,
    Result<(), QueueError>,
) {
    let s0 = Nic { link_changed: false, ..s };
    let w0 = Work { config_changed: w.config_changed || s.link_changed, ..w };
    let (s1, tx, m1, r1) = net_sent::<N>(s0, w.queues[1], w.mem, SERVICE_LIMIT as nat);
    let w1 = Work { queues: w0.queues.update(1, tx), mem: m1, ..w0 };
    if r1 is Err {
        (s1, w1, r1)
    } else {
        let (s2, rx, m2, r2) = net_received::<N>(s1, w1.queues[0], m1);
        (s2, Work { queues: w1.queues.update(0, rx), mem: m2, ..w1 }, r2)
    }
}

/// Takes chains until they have room for `need` bytes.
fn collect<R: GuestRam>(q: &mut Virtqueue, ram: &mut R, need: u128, mrg: bool) -> (r: Result<
    (Vec<DescChain>, u128),
    QueueError,
>)
    requires
        old(q).wf(),
        need <= 0xFFFF_FFFF_FFFF_FFFF_FFFF,
    ensures
        final(q).wf(),
        ({
            let goal = net_collected(
                *old(q),
                old(ram).mem(),
                Seq::empty(),
                need as int,
                mrg,
                SERVICE_LIMIT as nat,
            );
            &&& *final(q) == goal.0
            &&& final(ram).mem() == goal.1
            &&& match r {
                Ok((chains, room)) => {
                    &&& goal.2 == Ok::<Seq<Chain>, QueueError>(chains_view(chains@))
                    &&& room == room_of(chains_view(chains@))
                    &&& chains@.len() > 0 ==> final(q).size > 0
                },
                Err(e) => goal.2 == Err::<Seq<Chain>, QueueError>(e),
            }
        }),
{
    let mut chains: Vec<DescChain> = Vec::new();
    let mut room: u128 = 0;
    let mut fuel: u64 = SERVICE_LIMIT;
    assert(chains_view(chains@) =~= Seq::<Chain>::empty());
    while fuel > 0 && room < need && (mrg || chains.len() == 0)
        invariant
            q.wf(),
            room == room_of(chains_view(chains@)),
            need <= 0xFFFF_FFFF_FFFF_FFFF_FFFF,
            chains@.len() > 0 ==> q.size > 0,
            net_collected(
                *old(q),
                old(ram).mem(),
                Seq::empty(),
                need as int,
                mrg,
                SERVICE_LIMIT as nat,
            ) == net_collected(
                *q,
                ram.mem(),
                chains_view(chains@),
                need as int,
                mrg,
                fuel as nat,
            ),
        decreases fuel,
    {
        match q.pop(ram) {
            Err(e) => {
                return Err(e);
            },
            Ok(None) => {
                return Ok((chains, room));
            },
            Ok(Some(c)) => {
                proof {
                    lemma_total_bound(c@.writable);
                    let got = chains_view(chains@);
                    assert(got.push(c@).drop_last() =~= got);
                    assert(chains_view(chains@.push(c)) =~= got.push(c@));
                }
                room = room + c.writable_len() as u128;
                chains.push(c);
            },
        }
        fuel = fuel - 1;
    }
    Ok((chains, room))
}

/// Spreads the packet over the chains.
fn spread<R: GuestRam>(
    q: &mut Virtqueue,
    ram: &mut R,
    chains: &Vec<DescChain>,
    pkt: &Vec<u8>,
) -> (r: Result<(), QueueError>)
    requires
        old(q).wf(),
        chains@.len() > 0 ==> old(q).size > 0,
    ensures
        final(q).wf(),
        (*final(q), final(ram).mem(), r) == net_spread(
            *old(q),
            old(ram).mem(),
            chains_view(chains@),
            0,
            pkt@,
            0,
        ),
{
    let mut i: usize = 0;
    let mut off: usize = 0;
    while i < chains.len()
        invariant
            q.wf(),
            i <= chains@.len(),
            off <= pkt@.len(),
            chains@.len() > 0 ==> q.size > 0,
            net_spread(*old(q), old(ram).mem(), chains_view(chains@), 0, pkt@, 0) == net_spread(
                *q,
                ram.mem(),
                chains_view(chains@),
                i as nat,
                pkt@,
                off as nat,
            ),
        decreases chains@.len() - i,
    {
        let c: &DescChain = &chains[i];
        assert(chains_view(chains@)[i as int] == c@);
        let part: &[u8] = vstd::slice::slice_subrange(pkt.as_slice(), off, pkt.len());
        assert(part@ =~= pkt@.skip(off as int));
        let n: usize = match c.write(ram, 0, part) {
            Ok(n) => n,
            Err(e) => {
                return Err(QueueError::Ram(e));
            },
        };
        off = off + n;
        match q.push_used(ram, c.head, n as u32) {
            Ok(_) => {},
            Err(e) => {
                return Err(QueueError::Ram(e));
            },
        }
        i += 1;
    }
    Ok(())
}

impl<N: NetBackend> VirtioNet<N> {
    /// A device with the link up, queues of 256 and MRG_RXBUF offered.
    pub fn new(backend: N, mac: [u8; 6]) -> (r: Self)
        ensures
            r@ == (Nic {
                net: backend.model(),
                mac: mac@,
                link_up: true,
                link_changed: false,
                offer_mrg: true,
                mrg: false,
                pending_rx: None,
                rx_dropped: 0,
            }),
    {
        VirtioNet {
            backend,
            mac,
            link_up: true,
            link_changed: false,
            offer_mrg: true,
            mrg: false,
            pending_rx: None,
            rx_dropped: 0,
        }
    }

    /// Offers MRG_RXBUF or not.
    pub fn with_mrg_rxbuf(self, offer: bool) -> (r: Self)
        ensures
            r@ == (Nic { offer_mrg: offer, ..self@ }),
    {
        let mut n = self;
        n.offer_mrg = offer;
        n
    }

    pub fn backend_mut(&mut self) -> (r: &mut N)
        ensures
            *r == old(self).backend,
            final(self)@ == (Nic { net: final(r).model(), ..old(self)@ }),
            final(self).backend == *final(r),
    {
        &mut self.backend
    }

    /// Typed access to the backend, to read it.
    pub fn backend_as<T>(&self) -> (r: Option<&T>) where N: Holds<T>
        ensures
            match r {
                Some(t) => Holds::<T>::held(&self.backend) == Some(*t),
                None => Holds::<T>::held(&self.backend) is None,
            },
    {
        Holds::<T>::get(&self.backend)
    }

    /// Typed access to the backend.
    pub fn backend_as_mut<T>(&mut self) -> (r: Option<&mut T>) where N: Holds<T>
        ensures
            match r {
                Some(t) => {
                    &&& Holds::<T>::held(&old(self).backend) == Some(*t)
                    &&& Holds::<T>::held(&final(self).backend) == Some(*final(t))
                    &&& final(self)@ == (Nic { net: final(self)@.net, ..old(self)@ })
                },
                None => Holds::<T>::held(&old(self).backend) is None && *final(self) == *old(self),
            },
    {
        Holds::<T>::get_mut(&mut self.backend)
    }

    pub fn mac(&self) -> (r: [u8; 6])
        ensures
            r@ == self@.mac,
    {
        self.mac
    }

    pub fn link_up(&self) -> (r: bool)
        ensures
            r == self@.link_up,
    {
        self.link_up
    }

    /// Changes the state of the link; the driver learns of it at the next
    /// service, with a configuration interrupt.
    pub fn set_link_up(&mut self, up: bool)
        ensures
            final(self)@ == (if up != old(self)@.link_up {
                Nic { link_up: up, link_changed: true, ..old(self)@ }
            } else {
                old(self)@
            }),
    {
        if up != self.link_up {
            self.link_up = up;
            self.link_changed = true;
        }
    }

    /// Frames dropped in reception because they did not fit in the buffers.
    pub fn rx_dropped(&self) -> (r: u64)
        ensures
            r == self@.rx_dropped,
    {
        self.rx_dropped
    }

    fn config_bytes(&self) -> (r: Vec<u8>)
        ensures
            r@ == net_config(self@),
    {
        let mut c: Vec<u8> = Vec::new();
        push_bytes(&mut c, &self.mac);
        push_le16(&mut c, if self.link_up {
            S_LINK_UP
        } else {
            0
        });
        push_le16(&mut c, 1);
        push_zeros(&mut c, 2);
        assert(c@ =~= net_config(self@));
        c
    }

    fn transmit<R: GuestRam>(&mut self, q: &mut Virtqueue, ram: &mut R) -> (r: Result<
        (),
        QueueError,
    >)
        requires
            old(q).wf(),
        ensures
            final(q).wf(),
            (final(self)@, *final(q), final(ram).mem(), r) == net_sent::<N>(
                old(self)@,
                *old(q),
                old(ram).mem(),
                SERVICE_LIMIT as nat,
            ),
    {
        let mut fuel: u64 = SERVICE_LIMIT;
        while fuel > 0
            invariant
                q.wf(),
                net_sent::<N>(old(self)@, *old(q), old(ram).mem(), SERVICE_LIMIT as nat)
                    == net_sent::<N>(self@, *q, ram.mem(), fuel as nat),
            decreases fuel,
        {
            match q.pop(ram) {
                Err(e) => {
                    return Err(e);
                },
                Ok(None) => {
                    return Ok(());
                },
                Ok(Some(c)) => {
                    let len: u64 = c.readable_len();
                    if len < NET_HDR_LEN as u64 {
                        return Err(QueueError::Malformed("intestazione virtio-net incompleta"));
                    }
                    if len > (NET_HDR_LEN + MAX_FRAME) as u64 {
                        return Err(QueueError::Malformed("frame virtio-net oltre 64 KiB"));
                    }
                    match c.read_to_vec(ram, NET_HDR_LEN as u64) {
                        Err(e) => {
                            return Err(QueueError::Ram(e));
                        },
                        Ok(frame) => {
                            if self.link_up {
                                self.backend.send(frame.as_slice());
                            }
                        },
                    }
                    match q.push_used(ram, c.head, 0) {
                        Ok(_) => {},
                        Err(e) => {
                            return Err(QueueError::Ram(e));
                        },
                    }
                },
            }
            fuel = fuel - 1;
        }
        Ok(())
    }

    fn next_frame<R: GuestRam>(&mut self, q: &Virtqueue, ram: &R) -> (r: Result<
        Option<Vec<u8>>,
        QueueError,
    >)
        ensures
            final(self)@ == net_next::<N>(old(self)@, *q, ram.mem()).0,
            match r {
                Ok(Some(f)) => net_next::<N>(old(self)@, *q, ram.mem()).1 == Ok::<
                    Option<Seq<u8>>,
                    QueueError,
                >(Some(f@)),
                Ok(None) => net_next::<N>(old(self)@, *q, ram.mem()).1 == Ok::<
                    Option<Seq<u8>>,
                    QueueError,
                >(None),
                Err(e) => net_next::<N>(old(self)@, *q, ram.mem()).1 == Err::<
                    Option<Seq<u8>>,
                    QueueError,
                >(e),
            },
    {
        match self.pending_rx.take() {
            Some(f) => Ok(Some(f)),
            None => match q.available(ram) {
                Err(e) => Err(e),
                Ok(n) => if n > 0 {
                    Ok(self.backend.recv())
                } else {
                    Ok(None)
                },
            },
        }
    }

    fn take<R: GuestRam>(&mut self, q: &mut Virtqueue, ram: &mut R, frame: Vec<u8>) -> (r: Taken)
        requires
            old(q).wf(),
        ensures
            final(q).wf(),
            (final(self)@, *final(q), final(ram).mem(), r) == net_taken(
                old(self)@,
                *old(q),
                old(ram).mem(),
                frame@,
            ),
    {
        let need: u128 = frame.len() as u128 + NET_HDR_LEN as u128;
        let (chains, room) = match collect(q, ram, need, self.mrg) {
            Ok(g) => g,
            Err(e) => {
                return Taken::Fault(e);
            },
        };
        if room < need {
            match q.rewind(ram, (chains.len() % 0x1_0000) as u16) {
                Ok(_) => {},
                Err(e) => {
                    return Taken::Fault(QueueError::Ram(e));
                },
            }
            if self.mrg || chains.len() == 0 {
                self.pending_rx = Some(frame);
                return Taken::Waits;
            }
            self.rx_dropped = self.rx_dropped.wrapping_add(1);
            return Taken::Next;
        }
        let mut pkt: Vec<u8> = Vec::new();
        push_zeros(&mut pkt, 10);
        push_le16(&mut pkt, (chains.len() % 0x1_0000) as u16);
        push_bytes(&mut pkt, frame.as_slice());
        assert(pkt@ =~= framed(chains@.len(), frame@));
        match spread(q, ram, &chains, &pkt) {
            Ok(_) => Taken::Next,
            Err(e) => Taken::Fault(e),
        }
    }

    fn receive<R: GuestRam>(&mut self, q: &mut Virtqueue, ram: &mut R) -> (r: Result<
        (),
        QueueError,
    >)
        requires
            old(q).wf(),
        ensures
            final(q).wf(),
            (final(self)@, *final(q), final(ram).mem(), r) == net_received::<N>(
                old(self)@,
                *old(q),
                old(ram).mem(),
            ),
    {
        while self.link_up
            invariant
                q.wf(),
                net_received::<N>(old(self)@, *old(q), old(ram).mem()) == net_received::<N>(
                    self@,
                    *q,
                    ram.mem(),
                ),
            decreases frames_left::<N>(self@),
        {
            proof {
                N::drains(self.backend.model());
            }
            match self.next_frame(q, ram) {
                Err(e) => {
                    return Err(e);
                },
                Ok(None) => {
                    return Ok(());
                },
                Ok(Some(frame)) => match self.take(q, ram, frame) {
                    Taken::Fault(e) => {
                        return Err(e);
                    },
                    Taken::Waits => {
                        return Ok(());
                    },
                    Taken::Next => {},
                },
            }
        }
        Ok(())
    }
}

impl<N: NetBackend> VirtioDevice for VirtioNet<N> {
    open spec fn dev_inv(&self) -> bool {
        true
    }

    open spec fn id(&self) -> u32 {
        ID_NET
    }

    open spec fn offers(&self) -> u64 {
        F_MAC | F_STATUS | if self.offer_mrg {
            F_MRG_RXBUF
        } else {
            0u64
        }
    }

    open spec fn sizes(&self) -> Seq<u16> {
        seq![256u16, 256u16]
    }

    open spec fn config(&self) -> Seq<u8> {
        net_config(self@)
    }

    open spec fn configured(pre: Self, offset: u64, data: Seq<u8>, post: Self) -> bool {
        post == pre
    }

    open spec fn agreed(pre: Self, features: u64, post: Self, ok: bool) -> bool {
        ok && post@ == (Nic { mrg: features & F_MRG_RXBUF != 0, ..pre@ })
    }

    open spec fn cleared(pre: Self, post: Self) -> bool {
        post@ == (Nic { mrg: false, pending_rx: None, link_changed: false, ..pre@ })
    }

    open spec fn served(
        pre: Self,
        before: Work,
        post: Self,
        after: Work,
        r: Result<(), QueueError>,
    ) -> bool {
        (post@, after, r) == net_served::<N>(pre@, before)
    }

    fn device_id(&self) -> (r: u32) {
        ID_NET
    }

    fn features(&self) -> (r: u64) {
        let mrg: u64 = if self.offer_mrg {
            F_MRG_RXBUF
        } else {
            0
        };
        F_MAC | F_STATUS | mrg
    }

    fn queue_max_sizes(&self) -> (r: Vec<u16>) {
        vec![256u16, 256u16]
    }

    fn read_config(&self, offset: u64, data: &mut [u8]) {
        let c: Vec<u8> = self.config_bytes();
        read_config_bytes(c.as_slice(), offset, data);
    }

    fn write_config(&mut self, offset: u64, data: &[u8]) {
    }

    fn negotiate(&mut self, features: u64) -> (r: bool) {
        self.mrg = features & F_MRG_RXBUF != 0;
        true
    }

    fn reset(&mut self) {
        self.mrg = false;
        self.pending_rx = None;
        self.link_changed = false;
    }

    fn service<R: GuestRam>(&mut self, ctx: &mut ServiceCtx, ram: &mut R) -> (r: Result<
        (),
        QueueError,
    >) {
        if self.link_changed {
            self.link_changed = false;
            ctx.config_changed();
        }
        let mut tx: Virtqueue = ctx.queues[1];
        let sent = self.transmit(&mut tx, ram);
        ctx.queues.set(1, tx);
        match sent {
            Ok(_) => {},
            Err(e) => {
                return Err(e);
            },
        }
        let mut rx: Virtqueue = ctx.queues[0];
        let r = self.receive(&mut rx, ram);
        ctx.queues.set(0, rx);
        r
    }
}

} // verus!
