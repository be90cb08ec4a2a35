//! Virtio: the virtio-mmio transport version 2, split
//! virtqueues, and the devices behind them.
//!
//! - [`VirtioMmio`] is the transport: registers, feature negotiation, queue
//!   configuration, status, interrupt. A slot without a device shows DeviceID 0.
//! - [`Virtqueue`] is the split queue: descriptors, chains, indirect tables, the
//!   available and used rings, EVENT_IDX.
//! - The devices implement [`VirtioDevice`].
//!
//! The guest's RAM does not pass through the MMIO bus: a write to QueueNotify
//! does nothing by itself. The work is done in [`VirtioMmio::service`], which
//! receives the RAM as a [`GuestRam`].
use vstd::prelude::*;
use crate::platform::bus::{spec_sub_word, sub_word, MmioDevice};

pub mod blk;
pub mod blk_laws;
pub mod console;
pub mod device_laws;
pub mod disk;
pub mod disk_laws;
pub mod disk_saved;
pub mod display;
pub mod edid;
pub mod gpu;
pub mod input;
pub mod input_saved;
pub mod mmio;
pub mod net;
pub mod net_saved;
pub mod peripheral;
pub mod picture_laws;
pub mod queue;
pub mod queue_laws;
pub mod ram;
pub mod stream_laws;
pub mod transport_laws;
pub mod vsock;
pub mod vsock_laws;
pub mod vsock_saved;

pub use blk::{VirtioBlk, VirtioBlkConfig};
pub use console::{BufferConsole, ConsoleBackend, VirtioConsole};
pub use disk::{BlockBackend, BlockError, CowBackend, MemBackend};
pub use disk_saved::SavedBlock;
pub use display::{DisplayBackend, Frame, MemDisplay, PixelFormat, Rect};
pub use gpu::{GpuConfig, VirtioGpu};
pub use input::{AbsInfo, InputConfig, InputEvent, VirtioInput};
pub use mmio::VirtioMmio;
pub use net::{NetBackend, QueueNet, VirtioNet};
pub use net_saved::SavedNet;
pub use peripheral::Peripheral;
pub use queue::{Buf, DescChain, QueueError, Virtqueue};
pub use ram::{GuestRam, GuestRamExt, RamError, VecRam};
pub use vsock::{VirtioVsock, VsockConn, VsockError, VsockState};

verus! {

// ---- Registers of the transport -------------------------------------------------

pub const MAGIC_VALUE: u64 = 0x000;
pub const VERSION: u64 = 0x004;
pub const DEVICE_ID: u64 = 0x008;
pub const VENDOR_ID: u64 = 0x00C;
pub const DEVICE_FEATURES: u64 = 0x010;
pub const DEVICE_FEATURES_SEL: u64 = 0x014;
pub const DRIVER_FEATURES: u64 = 0x020;
pub const DRIVER_FEATURES_SEL: u64 = 0x024;
pub const QUEUE_SEL: u64 = 0x030;
pub const QUEUE_NUM_MAX: u64 = 0x034;
pub const QUEUE_NUM: u64 = 0x038;
pub const QUEUE_READY: u64 = 0x044;
pub const QUEUE_NOTIFY: u64 = 0x050;
pub const INTERRUPT_STATUS: u64 = 0x060;
pub const INTERRUPT_ACK: u64 = 0x064;
pub const STATUS: u64 = 0x070;
pub const QUEUE_DESC_LOW: u64 = 0x080;
pub const QUEUE_DESC_HIGH: u64 = 0x084;
pub const QUEUE_DRIVER_LOW: u64 = 0x090;
pub const QUEUE_DRIVER_HIGH: u64 = 0x094;
pub const QUEUE_DEVICE_LOW: u64 = 0x0A0;
pub const QUEUE_DEVICE_HIGH: u64 = 0x0A4;
pub const SHM_SEL: u64 = 0x0AC;
pub const SHM_LEN_LOW: u64 = 0x0B0;
pub const SHM_LEN_HIGH: u64 = 0x0B4;
pub const SHM_BASE_LOW: u64 = 0x0B8;
pub const SHM_BASE_HIGH: u64 = 0x0BC;
pub const CONFIG_GENERATION: u64 = 0x0FC;
/// Start of the device's configuration space.
pub const CONFIG: u64 = 0x100;

/// "virt" in little endian.
pub const MAGIC: u32 = 0x7472_6976;
/// VendorID: the one of QEMU ("QEMU" in little endian), so that the guest sees
/// the same values on both platforms.
pub const VENDOR: u32 = 0x554D_4551;

// ---- Bits of Status -------------------------------------------------------------

pub const STATUS_ACKNOWLEDGE: u32 = 1;
pub const STATUS_DRIVER: u32 = 2;
pub const STATUS_DRIVER_OK: u32 = 4;
pub const STATUS_FEATURES_OK: u32 = 8;
pub const STATUS_DEVICE_NEEDS_RESET: u32 = 64;
pub const STATUS_FAILED: u32 = 128;

// ---- InterruptStatus ------------------------------------------------------------

/// Buffers used in a queue.
pub const INT_VRING: u32 = 1;
/// Configuration changed (or DEVICE_NEEDS_RESET).
pub const INT_CONFIG: u32 = 2;

// ---- Reserved features ----------------------------------------------------------

pub const F_INDIRECT_DESC: u64 = 0x1000_0000;
pub const F_EVENT_IDX: u64 = 0x2000_0000;
pub const F_VERSION_1: u64 = 0x1_0000_0000;

// ---- DeviceID -------------------------------------------------------------------

pub const ID_NET: u32 = 1;
pub const ID_BLOCK: u32 = 2;
pub const ID_CONSOLE: u32 = 3;
pub const ID_GPU: u32 = 16;
pub const ID_INPUT: u32 = 18;
pub const ID_VSOCK: u32 = 19;

/// A device takes chains from a queue until its ring is empty. This many are more
/// than any machine can treat in one service, so that a ring always runs empty
/// before; a service that refilled its own ring for ever would come to an end here.
pub const SERVICE_LIMIT: u64 = 0xFFFF_FFFF_FFFF_FFFF;

// ---- Devices --------------------------------------------------------------------

/// What [`VirtioDevice::service`] works on, besides the RAM: the queues of the
/// device and the features agreed.
pub struct ServiceCtx {
    pub queues: Vec<Virtqueue>,
    pub features: u64,
    pub config_changed: bool,
}

impl ServiceCtx {
    /// Tells the driver that the configuration has changed (ConfigGeneration
    /// advances and the configuration interrupt is raised).
    pub fn config_changed(&mut self)
        ensures
            final(self).config_changed,
            final(self).queues == old(self).queues,
            final(self).features == old(self).features,
    {
        self.config_changed = true;
    }
}

/// The queues, the memory and the flag that a service leaves or finds.
#[verifier::ext_equal]
pub struct Work {
    pub queues: Seq<Virtqueue>,
    pub mem: ram::Mem,
    pub features: u64,
    pub config_changed: bool,
}

pub open spec fn work<R: GuestRam>(ctx: ServiceCtx, ram: R) -> Work {
    Work {
        queues: ctx.queues@,
        mem: ram.mem(),
        features: ctx.features,
        config_changed: ctx.config_changed,
    }
}

pub open spec fn queues_wf(queues: Seq<Virtqueue>) -> bool {
    forall|i: int| 0 <= i < queues.len() ==> (#[trigger] queues[i]).wf()
}

/// The bytes that a read of `n` bytes at `offset` sees of a configuration
/// space: zero past its end.
pub open spec fn config_read(cfg: Seq<u8>, offset: u64, n: nat) -> Seq<u8> {
    Seq::new(
        n,
        |i: int|
            if offset + i < cfg.len() {
                cfg[offset + i]
            } else {
                0u8
            },
    )
}

/// A virtio device behind the transport. The queues belong to the transport;
/// the device uses them only inside `service`.
///
/// The spec functions say what an implementation does: what holds of it between
/// calls, what it shows, and how each call that changes it relates the device
/// before and after. By default they claim nothing.
pub trait VirtioDevice: Sized {
    open spec fn dev_inv(&self) -> bool {
        true
    }

    open spec fn id(&self) -> u32 {
        0
    }

    open spec fn offers(&self) -> u64 {
        0
    }

    open spec fn sizes(&self) -> Seq<u16> {
        Seq::empty()
    }

    open spec fn config(&self) -> Seq<u8> {
        Seq::empty()
    }

    open spec fn configured(pre: Self, offset: u64, data: Seq<u8>, post: Self) -> bool {
        true
    }

    open spec fn agreed(pre: Self, features: u64, post: Self, ok: bool) -> bool {
        true
    }

    open spec fn cleared(pre: Self, post: Self) -> bool {
        true
    }

    open spec fn served(
        pre: Self,
        before: Work,
        post: Self,
        after: Work,
        r: Result<(), QueueError>,
    ) -> bool {
        true
    }

    fn device_id(&self) -> (r: u32)
        requires
            self.dev_inv(),
        ensures
            r == self.id(),
    ;

    /// Features of the device (bits 0 to 23). [`VirtioMmio`] adds those of the
    /// transport (VERSION_1, INDIRECT_DESC, EVENT_IDX).
    fn features(&self) -> (r: u64)
        requires
            self.dev_inv(),
        ensures
            r == self.offers(),
    ;

    /// Largest size of each queue; the length is the number of queues.
    fn queue_max_sizes(&self) -> (r: Vec<u16>)
        requires
            self.dev_inv(),
        ensures
            r@ == self.sizes(),
    ;

    /// Read from the configuration space; past its end one reads 0.
    fn read_config(&self, offset: u64, data: &mut [u8])
        requires
            self.dev_inv(),
        ensures
            final(data)@ == config_read(self.config(), offset, old(data)@.len()),
    ;

    /// Write to the configuration space.
    fn write_config(&mut self, offset: u64, data: &[u8])
        requires
            old(self).dev_inv(),
        ensures
            final(self).dev_inv(),
            final(self).sizes() == old(self).sizes(),
            Self::configured(*old(self), offset, data@, *final(self)),
    ;

    /// The driver has accepted these features (FEATURES_OK). `false` refuses the
    /// combination and FEATURES_OK does not stay set.
    fn negotiate(&mut self, features: u64) -> (r: bool)
        requires
            old(self).dev_inv(),
        ensures
            final(self).dev_inv(),
            final(self).sizes() == old(self).sizes(),
            Self::agreed(*old(self), features, *final(self), r),
    ;

    /// Reset of the device (Status = 0): it forgets the requests under way.
    fn reset(&mut self)
        requires
            old(self).dev_inv(),
        ensures
            final(self).dev_inv(),
            final(self).sizes() == old(self).sizes(),
            Self::cleared(*old(self), *final(self)),
    ;

    /// Works through the queues and the data of the backends. Called only with
    /// DRIVER_OK.
    fn service<R: GuestRam>(&mut self, ctx: &mut ServiceCtx, ram: &mut R) -> (r: Result<
        (),
        QueueError,
    >)
        requires
            old(self).dev_inv(),
            old(ctx).queues@.len() == old(self).sizes().len(),
            queues_wf(old(ctx).queues@),
        ensures
            final(self).dev_inv(),
            final(self).sizes() == old(self).sizes(),
            final(ctx).queues@.len() == old(ctx).queues@.len(),
            queues_wf(final(ctx).queues@),
            final(ctx).features == old(ctx).features,
            Self::served(
                *old(self),
                work(*old(ctx), *old(ram)),
                *final(self),
                work(*final(ctx), *final(ram)),
                r,
            ),
    ;
}

/// Reads `data.len()` bytes of the configuration structure `cfg` from `offset`
/// on; the bytes past its end are 0.
pub fn read_config_bytes(cfg: &[u8], offset: u64, data: &mut [u8])
    ensures
        final(data)@ == config_read(cfg@, offset, old(data)@.len()),
{
    let n: usize = data.len();
    let have: usize = cfg.len();
    let mut i: usize = 0;
    while i < n
        invariant
            n == data@.len() == old(data)@.len(),
            have == cfg@.len(),
            i <= n,
            forall|k: int|
                0 <= k < i ==> data@[k] == #[trigger] config_read(cfg@, offset, n as nat)[k],
        decreases n - i,
    {
        let b: u8 = if offset < have as u64 && i < have - offset as usize {
            cfg[offset as usize + i]
        } else {
            0
        };
        data[i] = b;
        i += 1;
    }
    assert(data@ =~= config_read(cfg@, offset, n as nat));
}

// ---- Empty slot -----------------------------------------------------------------

/// A virtio-mmio slot without a device, like the free ones of QEMU virt:
/// MagicValue and Version are valid and DeviceID is 0, so that the Linux driver
/// recognises the transport and skips it. [`VirtioMmio::empty`] behaves in the
/// same way and accepts a device later on.
#[derive(Clone, Copy, Debug, Default)]
pub struct VirtioMmioEmpty;

/// What an empty slot shows at `offset`.
pub open spec fn empty_value(offset: u64, size: u8) -> u64 {
    let word: u32 = if offset / 4 == 0 {
        MAGIC
    } else if offset / 4 == 1 {
        2
    } else {
        0
    };
    if size > 4 { 0 } else { spec_sub_word(word, offset, size) }
}

/// Read of an empty slot.
pub fn read_empty(offset: u64, size: u8) -> (r: u64)
    ensures
        r == empty_value(offset, size),
{
    let word: u32 = if offset / 4 == 0 {
        MAGIC
    } else if offset / 4 == 1 {
        2
    } else {
        0
    };
    if size > 4 { 0 } else { sub_word(word, offset, size) }
}

impl MmioDevice for VirtioMmioEmpty {
    open spec fn inv(&self) -> bool {
        true
    }

    open spec fn reads(pre: Self, offset: u64, size: u8, post: Self, value: u64) -> bool {
        value == empty_value(offset, size)
    }

    open spec fn writes(pre: Self, offset: u64, size: u8, value: u64, post: Self) -> bool {
        true
    }

    fn read(&mut self, offset: u64, size: u8) -> (value: u64) {
        read_empty(offset, size)
    }

    fn write(&mut self, offset: u64, size: u8, value: u64) {
    }
}

} // verus!
