//! The virtio-mmio transport, version 2.
//!
//! - The registers below 0x100 take aligned 32-bit accesses only; other accesses
//!   read 0 and write nothing.
//! - The write-only registers read 0.
//! - VERSION_1 is always offered and required: if the driver does not accept it,
//!   or accepts features that are not offered, or the device refuses the
//!   combination, FEATURES_OK does not stay set in Status.
//! - DriverFeatures after FEATURES_OK and the configuration of a queue that is
//!   already ready are ignored.
//! - There is no shared memory region: SHMLen and SHMBase read all ones.
//! - An error in the queues puts the device in DEVICE_NEEDS_RESET with a
//!   configuration interrupt and stops the service until a reset.
//! - The interrupt line is `InterruptStatus != 0`.
use vstd::prelude::*;
use crate::bytes::{le64, le64_at, le64_bytes, push_le64, zeros};
use crate::platform::bus::{Holds, MmioDevice};
use crate::platform::virtio::queue::{QueueError, Virtqueue};
use crate::platform::virtio::ram::{GuestRam, Mem};
use crate::platform::virtio::{config_read, empty_value, queues_wf, read_empty, work, ServiceCtx, VirtioDevice, Work};
use crate::platform::virtio::{CONFIG, CONFIG_GENERATION, DEVICE_FEATURES, DEVICE_FEATURES_SEL, DEVICE_ID, DRIVER_FEATURES, DRIVER_FEATURES_SEL, F_EVENT_IDX, F_INDIRECT_DESC, F_VERSION_1, INTERRUPT_ACK, INTERRUPT_STATUS, INT_CONFIG, INT_VRING, MAGIC, MAGIC_VALUE, QUEUE_DESC_HIGH, QUEUE_DESC_LOW, QUEUE_DEVICE_HIGH, QUEUE_DEVICE_LOW, QUEUE_DRIVER_HIGH, QUEUE_DRIVER_LOW, QUEUE_NUM, QUEUE_NUM_MAX, QUEUE_READY, QUEUE_SEL, SHM_BASE_HIGH, SHM_BASE_LOW, SHM_LEN_HIGH, SHM_LEN_LOW, STATUS, STATUS_DEVICE_NEEDS_RESET, STATUS_DRIVER_OK, STATUS_FEATURES_OK, VENDOR, VENDOR_ID, VERSION};

verus! {

/// A slot of the transport, with or without a device.
pub struct VirtioMmio<V> {
    pub device: Option<V>,
    pub queues: Vec<Virtqueue>,
    /// Features of the transport that are not offered.
    pub removed: u64,
    pub device_features_sel: u32,
    pub driver_features_sel: u32,
    pub driver_features: u64,
    pub queue_sel: u32,
    pub interrupt_status: u32,
    pub status: u32,
    pub config_generation: u32,
    pub last_error: Option<QueueError>,
}

/// What a [`VirtioMmio`] holds.
#[verifier::ext_equal]
pub struct Transport<V> {
    pub device: Option<V>,
    pub queues: Seq<Virtqueue>,
    pub removed: u64,
    pub device_features_sel: u32,
    pub driver_features_sel: u32,
    pub driver_features: u64,
    pub queue_sel: u32,
    pub interrupt_status: u32,
    pub status: u32,
    pub config_generation: u32,
    pub last_error: Option<QueueError>,
}

impl<V> View for VirtioMmio<V> {
    type V = Transport<V>;

    open spec fn view(&self) -> Transport<V> {
        Transport {
            device: self.device,
            queues: self.queues@,
            removed: self.removed,
            device_features_sel: self.device_features_sel,
            driver_features_sel: self.driver_features_sel,
            driver_features: self.driver_features,
            queue_sel: self.queue_sel,
            interrupt_status: self.interrupt_status,
            status: self.status,
            config_generation: self.config_generation,
            last_error: self.last_error,
        }
    }
}

/// `old` with its low half replaced.
pub open spec fn low_set(old: u64, v: u32) -> u64 {
    (old & 0xFFFF_FFFF_0000_0000) | v as u64
}

/// `old` with its high half replaced.
pub open spec fn high_set(old: u64, v: u32) -> u64 {
    (old & 0xFFFF_FFFF) | ((v as u64) << 32)
}

fn set_low(old: u64, v: u32) -> (r: u64)
    ensures
        r == low_set(old, v),
{
    (old & 0xFFFF_FFFF_0000_0000) | v as u64
}

fn set_high(old: u64, v: u32) -> (r: u64)
    ensures
        r == high_set(old, v),
{
    (old & 0xFFFF_FFFF) | ((v as u64) << 32)
}

/// The queues after the decision about the interrupt of the first `i`, whether
/// one of them calls for it, and the first error, `r` before them.
pub open spec fn noticed(qs: Seq<Virtqueue>, m: Mem, r: Result<(), QueueError>, i: nat) -> (
    Seq<Virtqueue>,
    bool,
    Result<(), QueueError>,
)
    decreases i,
{
    if i == 0 {
        (qs, false, r)
    } else {
        let (qs1, b, r1) = noticed(qs, m, r, (i - 1) as nat);
        let (q, n) = qs[i - 1].notice(m);
        (
            qs1.update(i - 1, q),
            b || (n matches Ok(yes) && yes),
            match n {
                Ok(_) => r1,
                Err(e) => if r1 is Ok {
                    Err(QueueError::Ram(e))
                } else {
                    r1
                },
            },
        )
    }
}

/// The fresh queues of a device.
pub open spec fn fresh_queues(sizes: Seq<u16>) -> Seq<Virtqueue> {
    sizes.map_values(|n: u16| Virtqueue::fresh(n))
}

/// The register is one half of the address of an area of the queue.
pub open spec fn is_address(offset: u64) -> bool {
    offset == QUEUE_DESC_LOW || offset == QUEUE_DESC_HIGH || offset == QUEUE_DRIVER_LOW || offset
        == QUEUE_DRIVER_HIGH || offset == QUEUE_DEVICE_LOW || offset == QUEUE_DEVICE_HIGH
}

/// A queue after a write of one half of an address.
pub open spec fn addressed(q: Virtqueue, offset: u64, v: u32) -> Virtqueue {
    if offset == QUEUE_DESC_LOW {
        Virtqueue { desc: low_set(q.desc, v), ..q }
    } else if offset == QUEUE_DESC_HIGH {
        Virtqueue { desc: high_set(q.desc, v), ..q }
    } else if offset == QUEUE_DRIVER_LOW {
        Virtqueue { driver: low_set(q.driver, v), ..q }
    } else if offset == QUEUE_DRIVER_HIGH {
        Virtqueue { driver: high_set(q.driver, v), ..q }
    } else if offset == QUEUE_DEVICE_LOW {
        Virtqueue { device: low_set(q.device, v), ..q }
    } else {
        Virtqueue { device: high_set(q.device, v), ..q }
    }
}

impl<V: VirtioDevice> Transport<V> {
    pub open spec fn blank() -> Self {
        Transport {
            device: None,
            queues: Seq::empty(),
            removed: 0,
            device_features_sel: 0,
            driver_features_sel: 0,
            driver_features: 0,
            queue_sel: 0,
            interrupt_status: 0,
            status: 0,
            config_generation: 0,
            last_error: None,
        }
    }

    /// The device is sound and each of its queues stands in the transport.
    pub open spec fn wf(self) -> bool {
        &&& queues_wf(self.queues)
        &&& match self.device {
            Some(d) => d.dev_inv() && self.queues.len() == d.sizes().len(),
            None => self.queues.len() == 0,
        }
    }

    pub open spec fn offered(self) -> u64 {
        match self.device {
            Some(d) => (d.offers() | F_VERSION_1 | F_INDIRECT_DESC | F_EVENT_IDX) & !self.removed,
            None => 0,
        }
    }

    pub open spec fn driven(self) -> bool {
        self.status & STATUS_DRIVER_OK != 0
    }

    pub open spec fn broken(self) -> bool {
        self.status & STATUS_DEVICE_NEEDS_RESET != 0
    }

    pub open spec fn features_locked(self) -> bool {
        self.status & STATUS_FEATURES_OK != 0
    }

    /// The configuration has changed.
    pub open spec fn signalled(self) -> Self {
        Transport {
            config_generation: self.config_generation.wrapping_add(1),
            interrupt_status: if self.driven() {
                self.interrupt_status | INT_CONFIG
            } else {
                self.interrupt_status
            },
            ..self
        }
    }

    pub open spec fn failed(self, e: QueueError) -> Self {
        Transport {
            last_error: Some(e),
            status: self.status | STATUS_DEVICE_NEEDS_RESET,
            ..self
        }.signalled()
    }

    /// The transport after a reset that leaves the device as `device`.
    pub open spec fn blanked(self, device: Option<V>) -> Self {
        Transport {
            device,
            queues: self.queues.map_values(|q: Virtqueue| Virtqueue::fresh(q.max_size)),
            device_features_sel: 0,
            driver_features_sel: 0,
            driver_features: 0,
            queue_sel: 0,
            interrupt_status: 0,
            status: 0,
            last_error: None,
            ..self
        }
    }

    /// A reset of the transport and of its device.
    pub open spec fn was_reset(pre: Self, post: Self) -> bool {
        &&& post == pre.blanked(post.device)
        &&& match (pre.device, post.device) {
            (None, None) => true,
            (Some(a), Some(b)) => V::cleared(a, b),
            _ => false,
        }
    }

    /// `device` is mounted and the transport goes back to the reset state.
    pub open spec fn mounted(pre: Self, device: Option<V>, post: Self) -> bool {
        Self::was_reset(
            Transport {
                device,
                queues: match device {
                    Some(d) => fresh_queues(d.sizes()),
                    None => Seq::empty(),
                },
                ..pre
            },
            post,
        )
    }

    /// The queue that QueueSel points at.
    pub open spec fn selected(self) -> Option<Virtqueue> {
        if self.queue_sel < self.queues.len() {
            Some(self.queues[self.queue_sel as int])
        } else {
            None
        }
    }

    /// The transport with the selected queue replaced.
    pub open spec fn requeued(self, q: Virtqueue) -> Self {
        Transport { queues: self.queues.update(self.queue_sel as int, q), ..self }
    }

    /// What a register shows while a device is mounted.
    pub open spec fn register(self, offset: u64) -> u32 {
        if offset == MAGIC_VALUE {
            MAGIC
        } else if offset == VERSION {
            2
        } else if offset == DEVICE_ID {
            match self.device {
                Some(d) => d.id(),
                None => 0,
            }
        } else if offset == VENDOR_ID {
            VENDOR
        } else if offset == DEVICE_FEATURES {
            if self.device_features_sel == 0 {
                self.offered() as u32
            } else if self.device_features_sel == 1 {
                (self.offered() >> 32) as u32
            } else {
                0
            }
        } else if offset == QUEUE_NUM_MAX {
            match self.selected() {
                Some(q) => q.max_size as u32,
                None => 0,
            }
        } else if offset == QUEUE_READY {
            if self.selected() matches Some(q) && q.ready {
                1
            } else {
                0
            }
        } else if offset == INTERRUPT_STATUS {
            self.interrupt_status
        } else if offset == STATUS {
            self.status
        } else if offset == SHM_LEN_LOW || offset == SHM_LEN_HIGH || offset == SHM_BASE_LOW
            || offset == SHM_BASE_HIGH {
            0xFFFF_FFFF
        } else if offset == CONFIG_GENERATION {
            self.config_generation
        } else {
            0
        }
    }

    /// What a read gives.
    pub open spec fn value(self, offset: u64, size: u8) -> u64 {
        if offset >= CONFIG {
            match self.device {
                Some(d) => {
                    let n: nat = if size <= 8 { size as nat } else { 8 };
                    le64_at(
                        config_read(d.config(), (offset - CONFIG) as u64, n) + zeros((8 - n) as nat),
                        0,
                    )
                },
                None => 0,
            }
        } else if size != 4 || offset % 4 != 0 {
            0
        } else if self.device is None {
            empty_value(offset, size)
        } else {
            self.register(offset) as u64
        }
    }

    /// The transport after a write to a register other than Status.
    pub open spec fn register_set(self, offset: u64, v: u32) -> Self {
        if offset == DEVICE_FEATURES_SEL {
            Transport { device_features_sel: v, ..self }
        } else if offset == DRIVER_FEATURES_SEL {
            Transport { driver_features_sel: v, ..self }
        } else if offset == DRIVER_FEATURES {
            if self.features_locked() {
                self
            } else if self.driver_features_sel == 0 {
                Transport { driver_features: low_set(self.driver_features, v), ..self }
            } else if self.driver_features_sel == 1 {
                Transport { driver_features: high_set(self.driver_features, v), ..self }
            } else {
                self
            }
        } else if offset == QUEUE_SEL {
            Transport { queue_sel: v, ..self }
        } else if offset == QUEUE_NUM {
            match self.selected() {
                Some(q) if !q.ready => self.requeued(
                    Virtqueue { size: if v <= 0xFFFF { v as u16 } else { 0 }, ..q },
                ),
                _ => self,
            }
        } else if offset == QUEUE_READY {
            match self.selected() {
                Some(q) => self.requeued(
                    Virtqueue {
                        event_idx: self.driver_features & F_EVENT_IDX != 0,
                        indirect: self.driver_features & F_INDIRECT_DESC != 0,
                        ..q
                    }.readied(v & 1 != 0),
                ),
                None => self,
            }
        } else if is_address(offset) {
            match self.selected() {
                Some(q) if !q.ready => self.requeued(addressed(q, offset, v)),
                _ => self,
            }
        } else if offset == INTERRUPT_ACK {
            Transport { interrupt_status: self.interrupt_status & !v, ..self }
        } else {
            self
        }
    }

    /// The features that the driver has written pass the transport's own checks.
    pub open spec fn acceptable(self) -> bool {
        self.driver_features & F_VERSION_1 != 0 && self.driver_features & !self.offered() == 0
    }

    /// A write to Status.
    pub open spec fn status_set(pre: Self, v: u32, post: Self) -> bool {
        let kept = v | (pre.status & STATUS_DEVICE_NEEDS_RESET);
        if v == 0 {
            Self::was_reset(pre, post)
        } else if kept & STATUS_FEATURES_OK == 0 || pre.features_locked() {
            post == (Transport { status: kept, ..pre })
        } else if !pre.acceptable() || pre.device is None {
            post == (Transport { status: kept & !STATUS_FEATURES_OK, ..pre })
        } else {
            exists|d: V, ok: bool|
                #![trigger V::agreed(pre.device->0, pre.driver_features, d, ok)]
                V::agreed(pre.device->0, pre.driver_features, d, ok) && post == (Transport {
                    device: Some(d),
                    status: if ok {
                        kept
                    } else {
                        kept & !STATUS_FEATURES_OK
                    },
                    ..pre
                })
        }
    }

    /// A write of `size` bytes.
    pub open spec fn written(pre: Self, offset: u64, size: u8, value: u64, post: Self) -> bool {
        match pre.device {
            None => post == pre,
            Some(d) => if offset >= CONFIG {
                let n: int = if size <= 8 { size as int } else { 8 };
                &&& post.device is Some
                &&& post == (Transport { device: post.device, ..pre })
                &&& V::configured(
                    d,
                    (offset - CONFIG) as u64,
                    le64_bytes(value).take(n),
                    post.device->0,
                )
            } else if size != 4 || offset % 4 != 0 {
                post == pre
            } else if offset == STATUS {
                Self::status_set(pre, value as u32, post)
            } else {
                post == pre.register_set(offset, value as u32)
            },
        }
    }

    /// The transport after its device has worked: `d` is the device, `after`
    /// what it left and `r` its result.
    pub open spec fn settled(self, d: V, after: Work, r: Result<(), QueueError>) -> Self {
        let t = Transport { device: Some(d), queues: after.queues, ..self };
        let t = if after.config_changed {
            t.signalled()
        } else {
            t
        };
        let (queues, notify, r) = noticed(after.queues, after.mem, r, after.queues.len());
        let t = Transport {
            queues,
            interrupt_status: if notify {
                t.interrupt_status | INT_VRING
            } else {
                t.interrupt_status
            },
            ..t
        };
        match r {
            Ok(_) => t,
            Err(e) => t.failed(e),
        }
    }

    /// What the device finds in the queues and the memory.
    pub open spec fn offered_work(self, m: Mem) -> Work {
        Work {
            queues: self.queues,
            mem: m,
            features: self.driver_features,
            config_changed: false,
        }
    }

    /// One service: `m` is the memory before it and `m2` after it.
    pub open spec fn worked(pre: Self, m: Mem, post: Self, m2: Mem) -> bool {
        if !pre.driven() || pre.broken() || pre.device is None {
            post == pre && m2 == m
        } else {
            exists|d: V, after: Work, r: Result<(), QueueError>|
                #![trigger V::served(pre.device->0, pre.offered_work(m), d, after, r)]
                {
                    &&& V::served(pre.device->0, pre.offered_work(m), d, after, r)
                    &&& after.mem == m2
                    &&& post == pre.settled(d, after, r)
                }
        }
    }
}

proof fn lemma_noticed(qs: Seq<Virtqueue>, m: Mem, r: Result<(), QueueError>, i: nat)
    requires
        i <= qs.len(),
        queues_wf(qs),
    ensures
        noticed(qs, m, r, i).0.len() == qs.len(),
        queues_wf(noticed(qs, m, r, i).0),
        forall|k: int| i <= k < qs.len() ==> noticed(qs, m, r, i).0[k] == qs[k],
    decreases i,
{
    if i > 0 {
        lemma_noticed(qs, m, r, (i - 1) as nat);
        assert(qs[i - 1].wf());
    }
}

impl<V: VirtioDevice> VirtioMmio<V> {
    pub open spec fn wf(self) -> bool {
        self@.wf()
    }

    /// A slot without a device.
    pub fn empty() -> (r: Self)
        ensures
            r@ == Transport::<V>::blank(),
            r.wf(),
    {
        let r = VirtioMmio {
            device: None,
            queues: Vec::new(),
            removed: 0,
            device_features_sel: 0,
            driver_features_sel: 0,
            driver_features: 0,
            queue_sel: 0,
            interrupt_status: 0,
            status: 0,
            config_generation: 0,
            last_error: None,
        };
        assert(r@ =~= Transport::<V>::blank());
        r
    }

    /// A slot with `device` mounted.
    pub fn new(device: V) -> (r: Self)
        requires
            device.dev_inv(),
        ensures
            r.wf(),
            Transport::mounted(Transport::<V>::blank(), Some(device), r@),
    {
        let mut t = Self::empty();
        t.set_device(Some(device));
        t
    }

    /// Takes some features of the transport out of the offer (INDIRECT_DESC,
    /// EVENT_IDX). VERSION_1 cannot be taken out.
    pub fn without_features(self, mask: u64) -> (r: Self)
        requires
            self.wf(),
        ensures
            r.wf(),
            r@ == (Transport { removed: mask & !F_VERSION_1, ..self@ }),
    {
        let mut t = self;
        t.removed = mask & !F_VERSION_1;
        t
    }

    /// Mounts (or removes) the device and brings the transport to the reset
    /// state.
    pub fn set_device(&mut self, device: Option<V>)
        requires
            device matches Some(d) ==> d.dev_inv(),
        ensures
            final(self).wf(),
            Transport::mounted(old(self)@, device, final(self)@),
    {
        let mut queues: Vec<Virtqueue> = Vec::new();
        if let Some(d) = &device {
            let sizes: Vec<u16> = d.queue_max_sizes();
            let mut i: usize = 0;
            while i < sizes.len()
                invariant
                    i <= sizes@.len(),
                    queues@ =~= fresh_queues(sizes@).take(i as int),
                decreases sizes@.len() - i,
            {
                queues.push(Virtqueue::new(sizes[i]));
                i += 1;
            }
            assert(queues@ =~= fresh_queues(d.sizes()));
        } else {
            assert(queues@ =~= Seq::empty());
        }
        let ghost before = self@;
        self.queues = queues;
        self.device = device;
        assert(self@ =~= Transport {
            device,
            queues: match device {
                Some(d) => fresh_queues(d.sizes()),
                None => Seq::empty(),
            },
            ..before
        });
        self.reset();
    }

    pub fn device(&self) -> (r: Option<&V>)
        ensures
            match r {
                Some(d) => self@.device == Some(*d),
                None => self@.device is None,
            },
    {
        self.device.as_ref()
    }

    /// Typed access to the mounted device.
    pub fn device_as<T>(&self) -> (r: Option<&T>) where V: Holds<T>
        ensures
            match r {
                Some(t) => self@.device matches Some(d) && Holds::<T>::held(&d) == Some(*t),
                None => self@.device matches Some(d) ==> Holds::<T>::held(&d) is None,
            },
    {
        match &self.device {
            Some(d) => Holds::<T>::get(d),
            None => None,
        }
    }

    /// Typed, mutable access to the mounted device.
    pub fn device_as_mut<T>(&mut self) -> (r: Option<&mut T>) where V: Holds<T>
        ensures
            match r {
                Some(t) => {
                    &&& old(self)@.device matches Some(d) && Holds::<T>::held(&d) == Some(*t)
                    &&& final(self)@.device matches Some(d) && Holds::<T>::held(&d) == Some(*final(t))
                    &&& final(self)@ == (Transport { device: final(self)@.device, ..old(self)@ })
                },
                None => {
                    &&& old(self)@.device matches Some(d) ==> Holds::<T>::held(&d) is None
                    &&& final(self)@ == old(self)@
                },
            },
    {
        match &mut self.device {
            Some(d) => Holds::<T>::get_mut(d),
            None => None,
        }
    }

    /// Features offered to the driver.
    pub fn offered_features(&self) -> (r: u64)
        requires
            self.wf(),
        ensures
            r == self@.offered(),
    {
        match &self.device {
            Some(d) => (d.features() | F_VERSION_1 | F_INDIRECT_DESC | F_EVENT_IDX) & !self.removed,
            None => 0,
        }
    }

    /// Features accepted by the driver (valid after FEATURES_OK).
    pub fn driver_features(&self) -> (r: u64)
        ensures
            r == self@.driver_features,
    {
        self.driver_features
    }

    pub fn status(&self) -> (r: u32)
        ensures
            r == self@.status,
    {
        self.status
    }

    pub fn interrupt_status(&self) -> (r: u32)
        ensures
            r == self@.interrupt_status,
    {
        self.interrupt_status
    }

    pub fn config_generation(&self) -> (r: u32)
        ensures
            r == self@.config_generation,
    {
        self.config_generation
    }

    pub fn queue(&self, i: usize) -> (r: Option<&Virtqueue>)
        ensures
            match r {
                Some(q) => i < self@.queues.len() && *q == self@.queues[i as int],
                None => i >= self@.queues.len(),
            },
    {
        if i < self.queues.len() {
            Some(&self.queues[i])
        } else {
            None
        }
    }

    /// Last error that put the device in DEVICE_NEEDS_RESET.
    pub fn last_error(&self) -> (r: Option<QueueError>)
        ensures
            r == self@.last_error,
    {
        self.last_error
    }

    /// Level of the interrupt line towards the interrupt controller.
    pub fn irq_level(&self) -> (r: bool)
        ensures
            r == (self@.interrupt_status != 0),
    {
        self.interrupt_status != 0
    }

    /// A change of the configuration decided by the host (for example the
    /// capacity of the disk): ConfigGeneration advances and the interrupt is
    /// raised, if the driver is already active.
    pub fn signal_config_change(&mut self)
        ensures
            final(self)@ == old(self)@.signalled(),
            final(self).queues == old(self).queues,
    {
        self.config_generation = self.config_generation.wrapping_add(1);
        if self.status & STATUS_DRIVER_OK != 0 {
            self.interrupt_status = self.interrupt_status | INT_CONFIG;
        }
    }

    fn reset(&mut self)
        requires
            old(self).wf(),
        ensures
            final(self).wf(),
            Transport::was_reset(old(self)@, final(self)@),
    {
        let ghost before = self@;
        let mut i: usize = 0;
        while i < self.queues.len()
            invariant
                i <= self.queues@.len() == before.queues.len(),
                self@ == (Transport { queues: self@.queues, ..before }),
                forall|k: int|
                    0 <= k < i ==> #[trigger] self.queues@[k] == Virtqueue::fresh(
                        before.queues[k].max_size,
                    ),
                forall|k: int| i <= k < self.queues@.len() ==> #[trigger] self.queues@[k] == before.queues[k],
            decreases self.queues@.len() - i,
        {
            let mut q: Virtqueue = self.queues[i];
            q.reset();
            self.queues.set(i, q);
            i += 1;
        }
        self.device_features_sel = 0;
        self.driver_features_sel = 0;
        self.driver_features = 0;
        self.queue_sel = 0;
        self.interrupt_status = 0;
        self.status = 0;
        self.last_error = None;
        if let Some(d) = &mut self.device {
            d.reset();
        }
        assert(self@ =~= before.blanked(self@.device));
    }

    fn fail(&mut self, e: QueueError)
        ensures
            final(self)@ == old(self)@.failed(e),
            final(self).queues == old(self).queues,
    {
        self.last_error = Some(e);
        self.status = self.status | STATUS_DEVICE_NEEDS_RESET;
        self.signal_config_change();
    }

    /// Makes the device work: it goes through the queues (requests of the driver
    /// and data ready in the backends) and InterruptStatus is brought up to date.
    /// Without DRIVER_OK, or in DEVICE_NEEDS_RESET, nothing happens.
    pub fn service<R: GuestRam>(&mut self, ram: &mut R)
        requires
            old(self).wf(),
        ensures
            final(self).wf(),
            Transport::worked(old(self)@, old(ram).mem(), final(self)@, final(ram).mem()),
    {
        if self.status & STATUS_DRIVER_OK == 0 || self.status & STATUS_DEVICE_NEEDS_RESET != 0 {
            return;
        }
        let ghost before = self@;
        let ghost m0 = ram.mem();
        let features: u64 = self.driver_features;
        if let Some(dev) = &mut self.device {
            let mut queues: Vec<Virtqueue> = Vec::new();
            std::mem::swap(&mut queues, &mut self.queues);
            let mut ctx = ServiceCtx { queues, features, config_changed: false };
            assert(work(ctx, *ram) =~= before.offered_work(m0));
            let result: Result<(), QueueError> = dev.service(&mut ctx, ram);
            let ghost after = work(ctx, *ram);
            let ghost d = *dev;
            let ServiceCtx { queues, features: _, config_changed } = ctx;
            self.queues = queues;
            proof {
                assert(V::served(before.device->0, before.offered_work(m0), d, after, result));
                assert(self@ =~= Transport { device: Some(d), queues: after.queues, ..before });
            }
            self.settle(ram, result, config_changed);
        }
    }

    /// What follows the work of the device: the interrupts, and the error if
    /// there was one. Buffers that were returned before an error are notified.
    fn settle<R: GuestRam>(&mut self, ram: &R, result: Result<(), QueueError>, config_changed: bool)
        requires
            old(self).wf(),
            old(self)@.device is Some,
        ensures
            final(self).wf(),
            final(self)@ == old(self)@.settled(
                old(self)@.device->0,
                Work {
                    queues: old(self)@.queues,
                    mem: ram.mem(),
                    features: old(self)@.driver_features,
                    config_changed,
                },
                result,
            ),
    {
        let ghost first = self@;
        if config_changed {
            self.signal_config_change();
        }
        let ghost signalled = self@;
        let mut r: Result<(), QueueError> = result;
        let mut notify: bool = false;
        let mut i: usize = 0;
        while i < self.queues.len()
            invariant
                i <= self.queues@.len() == first.queues.len(),
                queues_wf(first.queues),
                self@ == (Transport { queues: self@.queues, ..signalled }),
                (self@.queues, notify, r) == noticed(first.queues, ram.mem(), result, i as nat),
            decreases self.queues@.len() - i,
        {
            proof {
                lemma_noticed(first.queues, ram.mem(), result, i as nat);
            }
            let mut q: Virtqueue = self.queues[i];
            match q.should_notify(ram) {
                Ok(yes) => {
                    if yes {
                        notify = true;
                    }
                },
                Err(e) => {
                    if r.is_ok() {
                        r = Err(QueueError::Ram(e));
                    }
                },
            }
            self.queues.set(i, q);
            i += 1;
        }
        proof {
            lemma_noticed(first.queues, ram.mem(), result, first.queues.len());
        }
        if notify {
            self.interrupt_status = self.interrupt_status | INT_VRING;
        }
        if let Err(e) = r {
            self.fail(e);
        }
    }

    fn read_reg(&self, offset: u64) -> (r: u32)
        requires
            self.wf(),
        ensures
            r == self@.register(offset),
    {
        let selected: Option<&Virtqueue> = if (self.queue_sel as u64) < self.queues.len() as u64 {
            Some(&self.queues[self.queue_sel as usize])
        } else {
            None
        };
        match offset {
            MAGIC_VALUE => MAGIC,
            VERSION => 2,
            DEVICE_ID => match &self.device {
                Some(d) => d.device_id(),
                None => 0,
            },
            VENDOR_ID => VENDOR,
            DEVICE_FEATURES => match self.device_features_sel {
                0 => self.offered_features() as u32,
                1 => (self.offered_features() >> 32) as u32,
                _ => 0,
            },
            QUEUE_NUM_MAX => match selected {
                Some(q) => q.max_size() as u32,
                None => 0,
            },
            QUEUE_READY => match selected {
                Some(q) => if q.ready() {
                    1
                } else {
                    0
                },
                None => 0,
            },
            INTERRUPT_STATUS => self.interrupt_status,
            STATUS => self.status,
            SHM_LEN_LOW | SHM_LEN_HIGH | SHM_BASE_LOW | SHM_BASE_HIGH => 0xFFFF_FFFF,
            CONFIG_GENERATION => self.config_generation,
            _ => 0,
        }
    }

    fn write_features(&mut self, v: u32)
        requires
            old(self).wf(),
        ensures
            final(self).wf(),
            final(self)@ == old(self)@.register_set(DRIVER_FEATURES, v),
    {
        if self.status & STATUS_FEATURES_OK == 0 {
            match self.driver_features_sel {
                0 => {
                    self.driver_features = set_low(self.driver_features, v);
                },
                1 => {
                    self.driver_features = set_high(self.driver_features, v);
                },
                _ => {},
            }
        }
    }

    /// Writes to the registers of the selected queue.
    fn write_queue(&mut self, offset: u64, v: u32)
        requires
            old(self).wf(),
            offset == QUEUE_NUM || offset == QUEUE_READY || is_address(offset),
        ensures
            final(self).wf(),
            final(self)@ == old(self)@.register_set(offset, v),
    {
        if self.queue_sel as u64 >= self.queues.len() as u64 {
            return;
        }
        let ghost before = self@;
        let at: usize = self.queue_sel as usize;
        let mut q: Virtqueue = self.queues[at];
        if offset == QUEUE_READY {
            q.event_idx = self.driver_features & F_EVENT_IDX != 0;
            q.indirect = self.driver_features & F_INDIRECT_DESC != 0;
            q.set_ready(v & 1 != 0);
        } else {
            if q.ready() {
                return;
            }
            match offset {
                QUEUE_NUM => {
                    // More than 16 bits is not valid anyway: 0 makes it so.
                    q.set_size(if v <= 0xFFFF {
                        v as u16
                    } else {
                        0
                    });
                },
                QUEUE_DESC_LOW => q.set_desc(set_low(q.desc, v)),
                QUEUE_DESC_HIGH => q.set_desc(set_high(q.desc, v)),
                QUEUE_DRIVER_LOW => q.set_driver(set_low(q.driver, v)),
                QUEUE_DRIVER_HIGH => q.set_driver(set_high(q.driver, v)),
                QUEUE_DEVICE_LOW => q.set_device(set_low(q.device, v)),
                _ => q.set_device(set_high(q.device, v)),
            }
        }
        self.queues.set(at, q);
        assert(self@ =~= before.requeued(q));
    }

    fn write_reg(&mut self, offset: u64, v: u32)
        requires
            old(self).wf(),
            offset != STATUS,
        ensures
            final(self).wf(),
            final(self)@ == old(self)@.register_set(offset, v),
    {
        match offset {
            DEVICE_FEATURES_SEL => {
                self.device_features_sel = v;
            },
            DRIVER_FEATURES_SEL => {
                self.driver_features_sel = v;
            },
            DRIVER_FEATURES => self.write_features(v),
            QUEUE_SEL => {
                self.queue_sel = v;
            },
            QUEUE_NUM | QUEUE_READY | QUEUE_DESC_LOW | QUEUE_DESC_HIGH | QUEUE_DRIVER_LOW
            | QUEUE_DRIVER_HIGH | QUEUE_DEVICE_LOW | QUEUE_DEVICE_HIGH => self.write_queue(
                offset,
                v,
            ),
            INTERRUPT_ACK => {
                self.interrupt_status = self.interrupt_status & !v;
            },
            // QueueNotify: the work is done in `service`. SHMSel: there is no region.
            _ => {},
        }
    }

    fn write_status(&mut self, v: u32)
        requires
            old(self).wf(),
        ensures
            final(self).wf(),
            Transport::status_set(old(self)@, v, final(self)@),
    {
        if v == 0 {
            self.reset();
            return;
        }
        let ghost before = self@;
        let kept: u32 = v | (self.status & STATUS_DEVICE_NEEDS_RESET);
        if kept & STATUS_FEATURES_OK == 0 || self.status & STATUS_FEATURES_OK != 0 {
            self.status = kept;
            return;
        }
        let f: u64 = self.driver_features;
        if f & F_VERSION_1 == 0 || f & !self.offered_features() != 0 {
            self.status = kept & !STATUS_FEATURES_OK;
            return;
        }
        let ok: bool = match &mut self.device {
            Some(d) => d.negotiate(f),
            None => false,
        };
        self.status = if ok {
            kept
        } else {
            kept & !STATUS_FEATURES_OK
        };
        proof {
            if before.device is Some {
                assert(V::agreed(before.device->0, before.driver_features, self.device->0, ok));
            }
        }
    }
}

impl<V: VirtioDevice> MmioDevice for VirtioMmio<V> {
    open spec fn inv(&self) -> bool {
        self.wf()
    }

    open spec fn reads(pre: Self, offset: u64, size: u8, post: Self, value: u64) -> bool {
        post == pre && value == pre@.value(offset, size)
    }

    open spec fn writes(pre: Self, offset: u64, size: u8, value: u64, post: Self) -> bool {
        Transport::written(pre@, offset, size, value, post@)
    }

    fn read(&mut self, offset: u64, size: u8) -> (value: u64) {
        if offset >= CONFIG {
            return match &self.device {
                None => 0,
                Some(d) => {
                    let n: usize = if size <= 8 {
                        size as usize
                    } else {
                        8
                    };
                    let mut b: Vec<u8> = crate::bytes::zeroed(n);
                    d.read_config(offset - CONFIG, b.as_mut_slice());
                    crate::bytes::push_zeros(&mut b, 8 - n);
                    proof {
                        assert(b@ =~= config_read(d.config(), (offset - CONFIG) as u64, n as nat)
                            + zeros((8 - n) as nat));
                    }
                    le64(b.as_slice(), 0)
                },
            };
        }
        if size != 4 || offset % 4 != 0 {
            return 0;
        }
        if self.device.is_none() {
            return read_empty(offset, size);
        }
        self.read_reg(offset) as u64
    }

    fn write(&mut self, offset: u64, size: u8, value: u64) {
        if self.device.is_none() {
            return;
        }
        if offset >= CONFIG {
            if let Some(d) = &mut self.device {
                let n: usize = if size <= 8 {
                    size as usize
                } else {
                    8
                };
                let mut b: Vec<u8> = Vec::new();
                push_le64(&mut b, value);
                assert(b@ =~= le64_bytes(value));
                b.truncate(n);
                d.write_config(offset - CONFIG, b.as_slice());
            }
            return;
        }
        if size == 4 && offset % 4 == 0 {
            if offset == STATUS {
                self.write_status(value as u32);
            } else {
                self.write_reg(offset, value as u32);
            }
        }
    }
}

} // verus!
