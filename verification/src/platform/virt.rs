//! The virt platform, assembled: a bus with the GIC, the UART, the RTC and 32
//! virtio-mmio slots, the generic timer of CPU 0 and the wiring of the interrupt
//! lines.
//!
//! The CPU uses `bus` for the MMIO accesses outside the RAM, `gic_mut` for the
//! ICC_* registers and `timer` for the CNT* registers. The engine calls
//! [`Virt::service_virtio`] after MMIO accesses to the virtio slots and from time
//! to time (data that arrives from the backends), and then
//! [`Virt::update_irqs`]; the latter also after each MMIO access and when the
//! counter passes the next deadline of the timer.
use vstd::prelude::*;
use crate::platform::bus::{lemma_same_but_wf, Bus, DeviceId, Holds, MmioDevice, Region};
use crate::platform::gic::{Gic, GicState, MMIO_SIZE};
use crate::platform::map::{CNTFRQ_HZ, GICD_BASE, PPI_PTIMER, PPI_VTIMER, RTC_BASE, RTC_SIZE, RTC_SPI, SPI_BASE, UART_BASE, UART_SIZE, UART_SPI, VIRTIO_BASE, VIRTIO_SLOTS, VIRTIO_SLOT_SIZE, VIRTIO_SPI_BASE};
use crate::platform::pl011::{Pl011, Uart};
use crate::platform::pl031::Pl031;
use crate::platform::timer::{GenericTimer, TimerChannel};
use crate::platform::virtio::mmio::{Transport, VirtioMmio};
use crate::platform::virtio::ram::{GuestRam, Mem};
use crate::platform::virtio::VirtioDevice;

verus! {

/// Error in mounting a virtio device.
#[derive(Clone, Copy, Debug, PartialEq, Eq, Structural)]
pub enum VirtioSlotError {
    /// The slot does not exist (the valid ones are 0 to 31).
    NoSuchSlot(u32),
    /// The slot already has a device.
    Occupied(u32),
    /// Every slot is occupied.
    Full,
}

/// A device on the bus of the platform.
pub enum Device<V> {
    Gic(Gic),
    Uart(Pl011),
    Rtc(Pl031),
    Virtio(VirtioMmio<V>),
}

impl<V: VirtioDevice> MmioDevice for Device<V> {
    open spec fn inv(&self) -> bool {
        match self {
            Device::Gic(g) => g.inv(),
            Device::Uart(u) => u.inv(),
            Device::Rtc(r) => r.inv(),
            Device::Virtio(t) => t.inv(),
        }
    }

    open spec fn reads(pre: Self, offset: u64, size: u8, post: Self, value: u64) -> bool {
        match (pre, post) {
            (Device::Gic(a), Device::Gic(b)) => Gic::reads(a, offset, size, b, value),
            (Device::Uart(a), Device::Uart(b)) => Pl011::reads(a, offset, size, b, value),
            (Device::Rtc(a), Device::Rtc(b)) => Pl031::reads(a, offset, size, b, value),
            (Device::Virtio(a), Device::Virtio(b)) => VirtioMmio::<V>::reads(a, offset, size, b, value),
            _ => false,
        }
    }

    open spec fn writes(pre: Self, offset: u64, size: u8, value: u64, post: Self) -> bool {
        match (pre, post) {
            (Device::Gic(a), Device::Gic(b)) => Gic::writes(a, offset, size, value, b),
            (Device::Uart(a), Device::Uart(b)) => Pl011::writes(a, offset, size, value, b),
            (Device::Rtc(a), Device::Rtc(b)) => Pl031::writes(a, offset, size, value, b),
            (Device::Virtio(a), Device::Virtio(b)) => VirtioMmio::<V>::writes(a, offset, size, value, b),
            _ => false,
        }
    }

    fn read(&mut self, offset: u64, size: u8) -> (value: u64) {
        match self {
            Device::Gic(g) => g.read(offset, size),
            Device::Uart(u) => u.read(offset, size),
            Device::Rtc(r) => r.read(offset, size),
            Device::Virtio(t) => t.read(offset, size),
        }
    }

    fn write(&mut self, offset: u64, size: u8, value: u64) {
        match self {
            Device::Gic(g) => g.write(offset, size, value),
            Device::Uart(u) => u.write(offset, size, value),
            Device::Rtc(r) => r.write(offset, size, value),
            Device::Virtio(t) => t.write(offset, size, value),
        }
    }
}

impl<V> Holds<Gic> for Device<V> {
    open spec fn held(&self) -> Option<Gic> {
        match self {
            Device::Gic(g) => Some(*g),
            _ => None,
        }
    }

    fn get(&self) -> (r: Option<&Gic>) {
        match self {
            Device::Gic(g) => Some(g),
            _ => None,
        }
    }

    fn get_mut(&mut self) -> (r: Option<&mut Gic>) {
        match self {
            Device::Gic(g) => Some(g),
            _ => None,
        }
    }
}

impl<V> Holds<Pl011> for Device<V> {
    open spec fn held(&self) -> Option<Pl011> {
        match self {
            Device::Uart(u) => Some(*u),
            _ => None,
        }
    }

    fn get(&self) -> (r: Option<&Pl011>) {
        match self {
            Device::Uart(u) => Some(u),
            _ => None,
        }
    }

    fn get_mut(&mut self) -> (r: Option<&mut Pl011>) {
        match self {
            Device::Uart(u) => Some(u),
            _ => None,
        }
    }
}

impl<V> Holds<Pl031> for Device<V> {
    open spec fn held(&self) -> Option<Pl031> {
        match self {
            Device::Rtc(r) => Some(*r),
            _ => None,
        }
    }

    fn get(&self) -> (r: Option<&Pl031>) {
        match self {
            Device::Rtc(r) => Some(r),
            _ => None,
        }
    }

    fn get_mut(&mut self) -> (r: Option<&mut Pl031>) {
        match self {
            Device::Rtc(r) => Some(r),
            _ => None,
        }
    }
}

impl<V> Holds<VirtioMmio<V>> for Device<V> {
    open spec fn held(&self) -> Option<VirtioMmio<V>> {
        match self {
            Device::Virtio(t) => Some(*t),
            _ => None,
        }
    }

    fn get(&self) -> (r: Option<&VirtioMmio<V>>) {
        match self {
            Device::Virtio(t) => Some(t),
            _ => None,
        }
    }

    fn get_mut(&mut self) -> (r: Option<&mut VirtioMmio<V>>) {
        match self {
            Device::Virtio(t) => Some(t),
            _ => None,
        }
    }
}

/// The platform. Its virtio devices are of type `V`.
pub struct Virt<V> {
    pub bus: Bus<Device<V>>,
    pub timer: GenericTimer,
    pub gic: DeviceId,
    pub uart: DeviceId,
    pub rtc: DeviceId,
    /// Transport of slot `k` (base `VIRTIO_BASE + k * VIRTIO_SLOT_SIZE`).
    pub virtio: Vec<DeviceId>,
}

/// The region `i` of the bus: its base and its size.
pub open spec fn region_base(i: int) -> int {
    if i == 0 {
        GICD_BASE as int
    } else if i == 1 {
        UART_BASE as int
    } else if i == 2 {
        RTC_BASE as int
    } else {
        VIRTIO_BASE + (i - 3) * VIRTIO_SLOT_SIZE
    }
}

pub open spec fn region_size(i: int) -> int {
    if i == 0 {
        MMIO_SIZE as int
    } else if i == 1 {
        UART_SIZE as int
    } else if i == 2 {
        RTC_SIZE as int
    } else {
        VIRTIO_SLOT_SIZE as int
    }
}

/// The region `i` of the bus stands where the map says and holds a device of its
/// kind.
pub open spec fn placed<V>(r: Region<Device<V>>, i: int) -> bool {
    &&& r.base == region_base(i)
    &&& r.size == region_size(i)
    &&& i == 0 ==> r.device is Gic
    &&& i == 1 ==> r.device is Uart
    &&& i == 2 ==> r.device is Rtc
    &&& i >= 3 ==> r.device is Virtio
}

/// The first `n` regions of the map are on the bus.
pub open spec fn built<V: VirtioDevice>(bus: Bus<Device<V>>, n: nat) -> bool {
    &&& bus.wf()
    &&& bus.devices_inv()
    &&& bus.regions@.len() == n
    &&& forall|i: int| 0 <= i < n ==> placed(#[trigger] bus.regions@[i], i)
}

/// Maps a device where nothing stands yet.
fn mount<V: VirtioDevice>(
    bus: &mut Bus<Device<V>>,
    base: u64,
    size: u64,
    name: &'static str,
    device: Device<V>,
) -> (id: DeviceId)
    requires
        built(*old(bus), old(bus).regions@.len()),
        0 < size,
        base + size <= u64::MAX,
        forall|i: int|
            0 <= i < old(bus).regions@.len() ==> !(#[trigger] old(bus).regions@[i]).overlaps(base, size),
        device.inv(),
        placed(Region { base, size, name, device }, old(bus).regions@.len() as int),
    ensures
        id.0 == old(bus).regions@.len(),
        final(bus).regions@ == old(bus).regions@.push(Region { base, size, name, device }),
        built(*final(bus), old(bus).regions@.len() + 1),
{
    match bus.map(base, size, name, device) {
        Ok(id) => id,
        Err(_) => {
            assert(false);
            DeviceId(0)
        },
    }
}

impl<V: VirtioDevice> Virt<V> {
    /// The platform has its shape: the regions of the map with their devices, and
    /// the identifiers that find them.
    pub open spec fn wf(self) -> bool {
        &&& built(self.bus, 3 + VIRTIO_SLOTS as nat)
        &&& self.wired()
    }

    pub open spec fn wired(self) -> bool {
        &&& self.gic == DeviceId(0)
        &&& self.uart == DeviceId(1)
        &&& self.rtc == DeviceId(2)
        &&& self.virtio@ == Seq::new(VIRTIO_SLOTS as nat, |k: int| DeviceId((3 + k) as usize))
    }

    pub open spec fn the_gic(self) -> Gic {
        self.bus.regions@[0].device->Gic_0
    }

    pub open spec fn the_uart(self) -> Pl011 {
        self.bus.regions@[1].device->Uart_0
    }

    pub open spec fn the_rtc(self) -> Pl031 {
        self.bus.regions@[2].device->Rtc_0
    }

    /// The transport of slot `k`.
    pub open spec fn slot(self, k: int) -> VirtioMmio<V> {
        self.bus.regions@[3 + k].device->Virtio_0
    }

    /// The two platforms differ at most in the device of region `i`.
    pub open spec fn same_but(self, other: Self, i: int) -> bool {
        &&& other.timer == self.timer
        &&& other.gic == self.gic
        &&& other.uart == self.uart
        &&& other.rtc == self.rtc
        &&& other.virtio@ == self.virtio@
        &&& self.bus.same_but(other.bus, i)
    }

    proof fn lemma_same_but(pre: Self, post: Self, i: int)
        requires
            pre.wf(),
            pre.same_but(post, i),
            0 <= i < 3 + VIRTIO_SLOTS,
            placed(post.bus.regions@[i], i),
            post.bus.regions@[i].device.inv(),
        ensures
            post.wf(),
    {
        lemma_same_but_wf(pre.bus, post.bus, i);
        assert forall|j: int| 0 <= j < post.bus.regions@.len() implies (
        #[trigger] post.bus.regions@[j]).device.inv() && placed(post.bus.regions@[j], j) by {
            assert(pre.bus.regions@[j].device.inv());
            assert(placed(pre.bus.regions@[j], j));
        }
    }

    proof fn lemma_kept(pre: Self, i: int)
        requires
            pre.wf(),
            0 <= i < 3 + VIRTIO_SLOTS,
        ensures
            forall|post: Self| #[trigger]
                pre.same_but(post, i) && placed(post.bus.regions@[i], i)
                    && post.bus.regions@[i].device.inv() ==> post.wf(),
    {
        assert forall|post: Self| #[trigger]
            pre.same_but(post, i) && placed(post.bus.regions@[i], i)
                && post.bus.regions@[i].device.inv() implies post.wf() by {
            Self::lemma_same_but(pre, post, i);
        }
    }

    /// The platform, with the RTC at `now_secs`.
    pub fn new(now_secs: u64) -> (r: Self)
        ensures
            r.wf(),
            r.the_gic()@ == GicState::reset(),
            r.the_uart()@ == Uart::reset(),
            r.the_rtc() == Pl031::at(now_secs),
            forall|k: int| 0 <= k < VIRTIO_SLOTS ==> (#[trigger] r.slot(k))@ == Transport::<V>::blank(),
            r.bus.regions@[0].name@ == "gicv3"@,
            r.bus.regions@[1].name@ == "pl011"@,
            r.bus.regions@[2].name@ == "pl031"@,
            forall|i: int|
                3 <= i < 3 + VIRTIO_SLOTS ==> (#[trigger] r.bus.regions@[i]).name@ == "virtio-mmio"@,
            r.timer == (GenericTimer {
                virt: TimerChannel { ctl: 0, cval: 0 },
                phys: TimerChannel { ctl: 0, cval: 0 },
                cntvoff: 0,
                cntfrq: CNTFRQ_HZ,
            }),
    {
        let mut bus: Bus<Device<V>> = Bus::new();
        let gic: DeviceId = mount(&mut bus, GICD_BASE, MMIO_SIZE, "gicv3", Device::Gic(Gic::new()));
        let uart: DeviceId = mount(&mut bus, UART_BASE, UART_SIZE, "pl011", Device::Uart(Pl011::new()));
        let rtc: DeviceId = mount(
            &mut bus,
            RTC_BASE,
            RTC_SIZE,
            "pl031",
            Device::Rtc(Pl031::new(now_secs)),
        );
        let mut virtio: Vec<DeviceId> = Vec::new();
        let mut k: u64 = 0;
        while k < VIRTIO_SLOTS
            invariant
                k <= VIRTIO_SLOTS,
                built(bus, (3 + k) as nat),
                bus.regions@[0].device->Gic_0@ == GicState::reset(),
                bus.regions@[1].device->Uart_0@ == Uart::reset(),
                bus.regions@[2].device->Rtc_0 == Pl031::at(now_secs),
                bus.regions@[0].name@ == "gicv3"@,
                bus.regions@[1].name@ == "pl011"@,
                bus.regions@[2].name@ == "pl031"@,
                forall|i: int|
                    3 <= i < 3 + k ==> (#[trigger] bus.regions@[i]).name@ == "virtio-mmio"@,
                forall|i: int|
                    3 <= i < 3 + k ==> (#[trigger] bus.regions@[i]).device->Virtio_0@
                        == Transport::<V>::blank(),
                virtio@ == Seq::new(k as nat, |i: int| DeviceId((3 + i) as usize)),
            decreases VIRTIO_SLOTS - k,
        {
            let base: u64 = VIRTIO_BASE + k * VIRTIO_SLOT_SIZE;
            let ghost before = bus;
            proof {
                assert forall|i: int| 0 <= i < bus.regions@.len() implies !(
                #[trigger] bus.regions@[i]).overlaps(base, VIRTIO_SLOT_SIZE) by {
                    assert(placed(bus.regions@[i], i));
                }
            }
            let id: DeviceId = mount(
                &mut bus,
                base,
                VIRTIO_SLOT_SIZE,
                "virtio-mmio",
                Device::Virtio(VirtioMmio::empty()),
            );
            virtio.push(id);
            k += 1;
            assert(virtio@ =~= Seq::new(k as nat, |i: int| DeviceId((3 + i) as usize)));
            assert forall|i: int| 3 <= i < 3 + k implies (
            #[trigger] bus.regions@[i]).device->Virtio_0@ == Transport::<V>::blank()
                && bus.regions@[i].name@ == "virtio-mmio"@ by {
                if i < 2 + k {
                    assert(bus.regions@[i] == before.regions@[i]);
                }
            }
        }
        Virt { bus, timer: GenericTimer::default(), gic, uart, rtc, virtio }
    }

    /// The virtio-mmio transport of slot `slot`.
    pub fn virtio(&self, slot: u32) -> (r: Option<&VirtioMmio<V>>)
        requires
            self.wf(),
        ensures
            match r {
                Some(t) => slot < VIRTIO_SLOTS && *t == self.slot(slot as int),
                None => slot >= VIRTIO_SLOTS,
            },
    {
        if slot as usize >= self.virtio.len() {
            return None;
        }
        assert(placed(self.bus.regions@[3 + slot], 3 + slot));
        self.bus.device(self.virtio[slot as usize])
    }

    pub fn virtio_mut(&mut self, slot: u32) -> (r: Option<&mut VirtioMmio<V>>)
        requires
            old(self).wf(),
        ensures
            match r {
                Some(t) => {
                    &&& slot < VIRTIO_SLOTS
                    &&& *t == old(self).slot(slot as int)
                    &&& *final(t) == final(self).slot(slot as int)
                    &&& old(self).same_but(*final(self), 3 + slot)
                    &&& final(t).wf() ==> final(self).wf()
                },
                None => slot >= VIRTIO_SLOTS && *final(self) == *old(self),
            },
    {
        if slot as usize >= self.virtio.len() {
            return None;
        }
        assert(placed(self.bus.regions@[3 + slot], 3 + slot));
        proof {
            Self::lemma_kept(*self, 3 + slot);
        }
        let id: DeviceId = self.virtio[slot as usize];
        self.bus.device_mut(id)
    }

    /// Mounts `dev` in slot `slot`; its line is the SPI `VIRTIO_SPI_BASE + slot`,
    /// which the device tree already describes.
    pub fn attach_virtio(&mut self, slot: u32, dev: V) -> (r: Result<(), VirtioSlotError>)
        requires
            old(self).wf(),
            dev.dev_inv(),
        ensures
            final(self).wf(),
            r == (if slot >= VIRTIO_SLOTS {
                Err(VirtioSlotError::NoSuchSlot(slot))
            } else if old(self).slot(slot as int)@.device is Some {
                Err(VirtioSlotError::Occupied(slot))
            } else {
                Ok::<(), VirtioSlotError>(())
            }),
            r is Err ==> *final(self) == *old(self),
            r is Ok ==> {
                &&& old(self).same_but(*final(self), 3 + slot)
                &&& Transport::mounted(
                    old(self).slot(slot as int)@,
                    Some(dev),
                    final(self).slot(slot as int)@,
                )
            },
    {
        match self.virtio(slot) {
            None => {
                return Err(VirtioSlotError::NoSuchSlot(slot));
            },
            Some(t) => if t.device().is_some() {
                return Err(VirtioSlotError::Occupied(slot));
            },
        }
        if let Some(t) = self.virtio_mut(slot) {
            t.set_device(Some(dev));
        }
        Ok(())
    }

    /// Slot `k` is free and every higher one is occupied.
    pub open spec fn next_free(self, k: int) -> bool {
        &&& 0 <= k < VIRTIO_SLOTS
        &&& self.slot(k)@.device is None
        &&& forall|j: int| k < j < VIRTIO_SLOTS ==> (#[trigger] self.slot(j))@.device is Some
    }

    /// Mounts `dev` in the highest free slot and returns its number. As in QEMU
    /// virt, the first device ends up in slot 31, the second in slot 30, and so
    /// on.
    pub fn attach_virtio_next(&mut self, dev: V) -> (r: Result<u32, VirtioSlotError>)
        requires
            old(self).wf(),
            dev.dev_inv(),
        ensures
            final(self).wf(),
            match r {
                Ok(k) => {
                    &&& old(self).next_free(k as int)
                    &&& old(self).same_but(*final(self), 3 + k)
                    &&& Transport::mounted(
                        old(self).slot(k as int)@,
                        Some(dev),
                        final(self).slot(k as int)@,
                    )
                },
                Err(e) => {
                    &&& e == VirtioSlotError::Full
                    &&& forall|j: int|
                        0 <= j < VIRTIO_SLOTS ==> (#[trigger] old(self).slot(j))@.device is Some
                    &&& *final(self) == *old(self)
                },
            },
    {
        let mut k: u32 = VIRTIO_SLOTS as u32;
        while k > 0
            invariant
                *self == *old(self),
                self.wf(),
                k <= VIRTIO_SLOTS,
                dev.dev_inv(),
                forall|j: int| k <= j < VIRTIO_SLOTS ==> (#[trigger] self.slot(j))@.device is Some,
            decreases k,
        {
            k -= 1;
            let free: bool = match self.virtio(k) {
                Some(t) => t.device().is_none(),
                None => false,
            };
            if free {
                return match self.attach_virtio(k, dev) {
                    Ok(()) => Ok(k),
                    Err(e) => Err(e),
                };
            }
        }
        Err(VirtioSlotError::Full)
    }

    /// The service of the first `n` slots, from the platform `pre` to `post`:
    /// `mems[k]` is the memory when the turn of slot `k` comes.
    pub open spec fn serviced(pre: Self, mems: Seq<Mem>, post: Self, n: int) -> bool {
        forall|k: int|
            0 <= k < n ==> Transport::worked(
                (#[trigger] pre.slot(k))@,
                mems[k],
                post.slot(k)@,
                mems[k + 1],
            )
    }

    /// The two platforms differ at most in the transports of the first `n` slots.
    pub open spec fn same_but_slots(self, other: Self, n: int) -> bool {
        &&& other.timer == self.timer
        &&& other.bus.regions@.len() == self.bus.regions@.len()
        &&& forall|i: int|
            0 <= i < self.bus.regions@.len() && (i < 3 || i >= 3 + n) ==> #[trigger] other.bus.regions@[i]
                == self.bus.regions@[i]
    }

    /// Makes every mounted virtio device work, in the order of the slots (see
    /// [`VirtioMmio::service`]).
    pub fn service_virtio<R: GuestRam>(&mut self, ram: &mut R)
        requires
            old(self).wf(),
        ensures
            final(self).wf(),
            old(self).same_but_slots(*final(self), VIRTIO_SLOTS as int),
            exists|mems: Seq<Mem>|
                {
                    &&& mems.len() == VIRTIO_SLOTS + 1
                    &&& mems[0] == old(ram).mem()
                    &&& mems[VIRTIO_SLOTS as int] == final(ram).mem()
                    &&& #[trigger] Self::serviced(*old(self), mems, *final(self), VIRTIO_SLOTS as int)
                },
    {
        let ghost pre = *self;
        let ghost mut mems: Seq<Mem> = seq![ram.mem()];
        let mut k: u32 = 0;
        while (k as u64) < VIRTIO_SLOTS
            invariant
                k <= VIRTIO_SLOTS,
                pre.wf(),
                self.wf(),
                pre.same_but_slots(*self, k as int),
                mems.len() == k + 1,
                mems[0] == old(ram).mem(),
                mems[k as int] == ram.mem(),
                Self::serviced(pre, mems, *self, k as int),
            decreases VIRTIO_SLOTS - k,
        {
            let ghost before = *self;
            assert(self.bus.regions@[3 + k] == pre.bus.regions@[3 + k]);
            assert(self.slot(k as int) == pre.slot(k as int));
            if let Some(t) = self.virtio_mut(k) {
                if t.device().is_some() {
                    t.service(ram);
                }
            }
            proof {
                let grown = mems.push(ram.mem());
                assert(Transport::worked(before.slot(k as int)@, mems[k as int], self.slot(k as int)@, ram.mem()));
                assert forall|j: int| 0 <= j < k + 1 implies Transport::worked(
                    (#[trigger] pre.slot(j))@,
                    grown[j],
                    self.slot(j)@,
                    grown[j + 1],
                ) by {
                    if j < k {
                        assert(self.bus.regions@[3 + j] == before.bus.regions@[3 + j]);
                    }
                }
                mems = grown;
            }
            k += 1;
        }
    }

    pub fn gic(&self) -> (r: &Gic)
        requires
            self.wf(),
        ensures
            *r == self.the_gic(),
            r@.wf(),
    {
        assert(placed(self.bus.regions@[0], 0));
        assert(self.bus.regions@[0].device.inv());
        self.bus.device(self.gic).unwrap()
    }

    pub fn gic_mut(&mut self) -> (r: &mut Gic)
        requires
            old(self).wf(),
        ensures
            *r == old(self).the_gic(),
            r@.wf(),
            *final(r) == final(self).the_gic(),
            old(self).same_but(*final(self), 0),
            final(r)@.wf() ==> final(self).wf(),
    {
        assert(placed(self.bus.regions@[0], 0));
        assert(self.bus.regions@[0].device.inv());
        proof {
            Self::lemma_kept(*self, 0);
        }
        let id: DeviceId = self.gic;
        self.bus.device_mut(id).unwrap()
    }

    pub fn uart(&self) -> (r: &Pl011)
        requires
            self.wf(),
        ensures
            *r == self.the_uart(),
            r@.wf(),
    {
        assert(placed(self.bus.regions@[1], 1));
        assert(self.bus.regions@[1].device.inv());
        self.bus.device(self.uart).unwrap()
    }

    pub fn uart_mut(&mut self) -> (r: &mut Pl011)
        requires
            old(self).wf(),
        ensures
            *r == old(self).the_uart(),
            r@.wf(),
            *final(r) == final(self).the_uart(),
            old(self).same_but(*final(self), 1),
            final(r)@.wf() ==> final(self).wf(),
    {
        assert(placed(self.bus.regions@[1], 1));
        assert(self.bus.regions@[1].device.inv());
        proof {
            Self::lemma_kept(*self, 1);
        }
        let id: DeviceId = self.uart;
        self.bus.device_mut(id).unwrap()
    }

    pub fn rtc(&self) -> (r: &Pl031)
        requires
            self.wf(),
        ensures
            *r == self.the_rtc(),
    {
        assert(placed(self.bus.regions@[2], 2));
        self.bus.device(self.rtc).unwrap()
    }

    pub fn rtc_mut(&mut self) -> (r: &mut Pl031)
        requires
            old(self).wf(),
        ensures
            *r == old(self).the_rtc(),
            *final(r) == final(self).the_rtc(),
            old(self).same_but(*final(self), 2),
            final(self).wf(),
    {
        assert(placed(self.bus.regions@[2], 2));
        proof {
            Self::lemma_kept(*self, 2);
        }
        let id: DeviceId = self.rtc;
        self.bus.device_mut(id).unwrap()
    }

    /// The GIC with the lines of the timer brought to it.
    pub open spec fn timer_lines(self, g: GicState, cntpct: u64) -> GicState {
        g.level_set(PPI_VTIMER, self.timer.virt_line(cntpct)).level_set(
            PPI_PTIMER,
            self.timer.phys_line(cntpct),
        )
    }

    /// The GIC with the lines of the UART and the RTC brought to it.
    pub open spec fn board_lines(self, g: GicState) -> GicState {
        g.level_set(
            (SPI_BASE + UART_SPI) as u32,
            self.the_uart()@.ris & self.the_uart()@.imsc != 0,
        ).level_set((SPI_BASE + RTC_SPI) as u32, self.the_rtc().ris & self.the_rtc().imsc != 0)
    }

    /// The GIC with the lines of the first `n` virtio slots brought to it.
    pub open spec fn virtio_lines(self, g: GicState, n: nat) -> GicState
        decreases n,
    {
        if n == 0 {
            g
        } else {
            self.virtio_lines(g, (n - 1) as nat).level_set(
                (SPI_BASE + VIRTIO_SPI_BASE + (n - 1)) as u32,
                self.slot(n - 1)@.interrupt_status != 0,
            )
        }
    }

    /// Brings to the GIC the level of every line: timer (PPI 27 and 30), UART (SPI
    /// 1), RTC (SPI 2) and virtio (SPI 16 + slot).
    pub fn update_irqs(&mut self, cntpct: u64)
        requires
            old(self).wf(),
        ensures
            final(self).wf(),
            old(self).same_but(*final(self), 0),
            final(self).the_gic()@ == old(self).virtio_lines(
                old(self).board_lines(old(self).timer_lines(old(self).the_gic()@, cntpct)),
                VIRTIO_SLOTS as nat,
            ),
    {
        let timer: [(u32, bool); 2] = self.timer.irq_lines(cntpct);
        let uart: bool = self.uart().irq_level();
        let rtc: bool = self.rtc().irq_level();
        let ghost pre = *self;
        let mut virtio: Vec<bool> = Vec::new();
        let mut k: u32 = 0;
        while (k as u64) < VIRTIO_SLOTS
            invariant
                k <= VIRTIO_SLOTS,
                *self == pre,
                self.wf(),
                virtio@.len() == k,
                forall|i: int| 0 <= i < k ==> #[trigger] virtio@[i] == (pre.slot(i)@.interrupt_status != 0),
            decreases VIRTIO_SLOTS - k,
        {
            let level: bool = match self.virtio(k) {
                Some(t) => t.irq_level(),
                None => false,
            };
            virtio.push(level);
            k += 1;
        }
        let g: &mut Gic = self.gic_mut();
        assert(timer@[0] == (PPI_VTIMER, pre.timer.virt_line(cntpct)));
        assert(timer@[1] == (PPI_PTIMER, pre.timer.phys_line(cntpct)));
        g.set_irq_level(timer[0].0, timer[0].1);
        g.set_irq_level(timer[1].0, timer[1].1);
        g.set_spi_level(UART_SPI, uart);
        g.set_spi_level(RTC_SPI, rtc);
        let ghost mid = g@;
        drive(g, &virtio);
        assert(lines_driven(mid, virtio@, VIRTIO_SLOTS as nat) == pre.virtio_lines(
            mid,
            VIRTIO_SLOTS as nat,
        )) by {
            Self::lemma_driven(pre, mid, virtio@, VIRTIO_SLOTS as nat);
        }
    }

    proof fn lemma_driven(pre: Self, g: GicState, levels: Seq<bool>, n: nat)
        requires
            n <= levels.len(),
            forall|i: int| 0 <= i < n ==> #[trigger] levels[i] == (pre.slot(i)@.interrupt_status != 0),
        ensures
            lines_driven(g, levels, n) == pre.virtio_lines(g, n),
        decreases n,
    {
        if n > 0 {
            Self::lemma_driven(pre, g, levels, (n - 1) as nat);
            assert(levels[n - 1] == (pre.slot(n - 1)@.interrupt_status != 0));
        }
    }

    /// The IRQ line towards CPU 0.
    pub fn irq_line(&self) -> (r: bool)
        requires
            self.wf(),
        ensures
            r == (self.the_gic()@.deliverable() is Some),
    {
        self.gic().irq_line()
    }
}

/// The GIC with the first `n` levels on the lines of the virtio slots.
pub open spec fn lines_driven(g: GicState, levels: Seq<bool>, n: nat) -> GicState
    decreases n,
{
    if n == 0 {
        g
    } else {
        lines_driven(g, levels, (n - 1) as nat).level_set(
            (SPI_BASE + VIRTIO_SPI_BASE + (n - 1)) as u32,
            levels[n - 1],
        )
    }
}

fn drive(g: &mut Gic, levels: &Vec<bool>)
    requires
        old(g)@.wf(),
        levels@.len() == VIRTIO_SLOTS,
    ensures
        final(g)@.wf(),
        final(g)@ == lines_driven(old(g)@, levels@, VIRTIO_SLOTS as nat),
{
    let mut k: u32 = 0;
    while (k as u64) < VIRTIO_SLOTS
        invariant
            k <= VIRTIO_SLOTS == levels@.len(),
            g@.wf(),
            g@ == lines_driven(old(g)@, levels@, k as nat),
        decreases VIRTIO_SLOTS - k,
    {
        g.set_spi_level(VIRTIO_SPI_BASE + k, levels[k as usize]);
        k += 1;
    }
}

/// An access through the bus keeps the shape of the platform: the device that it
/// reaches stays what it is, where it is.
pub proof fn law_accesses_keep_the_platform<V: VirtioDevice>(
    pre: Virt<V>,
    post: Virt<V>,
    i: int,
    offset: u64,
    size: u8,
    value: u64,
)
    requires
        pre.wf(),
        0 <= i < 3 + VIRTIO_SLOTS,
        pre.same_but(post, i),
        post.bus.devices_inv(),
        ({
            let a = pre.bus.regions@[i].device;
            let b = post.bus.regions@[i].device;
            Device::<V>::reads(a, offset, size, b, value) || Device::<V>::writes(
                a,
                offset,
                size,
                value,
                b,
            )
        }),
    ensures
        post.wf(),
{
    assert(placed(pre.bus.regions@[i], i));
    assert(post.bus.regions@[i].device.inv());
    Virt::lemma_same_but(pre, post, i);
}

} // verus!
