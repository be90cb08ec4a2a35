//! One type for the virtio devices of a board, so that slots of different kinds
//! stand side by side.
use vstd::prelude::*;
use crate::platform::bus::Holds;
use crate::platform::virtio::blk::VirtioBlk;
use crate::platform::virtio::console::{ConsoleBackend, VirtioConsole};
use crate::platform::virtio::disk::BlockBackend;
use crate::platform::virtio::display::DisplayBackend;
use crate::platform::virtio::gpu::VirtioGpu;
use crate::platform::virtio::input::VirtioInput;
use crate::platform::virtio::net::{NetBackend, VirtioNet};
use crate::platform::virtio::queue::QueueError;
use crate::platform::virtio::ram::GuestRam;
use crate::platform::virtio::vsock::VirtioVsock;
use crate::platform::virtio::{ServiceCtx, VirtioDevice, Work};

verus! {

/// A virtio device of any kind, over the backends of the host.
pub enum Peripheral<B, N, C, D> {
    Blk(VirtioBlk<B>),
    Net(VirtioNet<N>),
    Console(VirtioConsole<C>),
    Gpu(VirtioGpu<D>),
    Input(VirtioInput),
    Vsock(VirtioVsock),
}

impl<B: BlockBackend, N: NetBackend, C: ConsoleBackend, D: DisplayBackend> VirtioDevice for Peripheral<B, N, C, D> {
    open spec fn dev_inv(&self) -> bool {
        match self {
            Peripheral::Blk(d) => VirtioDevice::dev_inv(d),
            Peripheral::Net(d) => VirtioDevice::dev_inv(d),
            Peripheral::Console(d) => VirtioDevice::dev_inv(d),
            Peripheral::Gpu(d) => VirtioDevice::dev_inv(d),
            Peripheral::Input(d) => VirtioDevice::dev_inv(d),
            Peripheral::Vsock(d) => VirtioDevice::dev_inv(d),
        }
    }

    open spec fn id(&self) -> u32 {
        match self {
            Peripheral::Blk(d) => VirtioDevice::id(d),
            Peripheral::Net(d) => VirtioDevice::id(d),
            Peripheral::Console(d) => VirtioDevice::id(d),
            Peripheral::Gpu(d) => VirtioDevice::id(d),
            Peripheral::Input(d) => VirtioDevice::id(d),
            Peripheral::Vsock(d) => VirtioDevice::id(d),
        }
    }

    open spec fn offers(&self) -> u64 {
        match self {
            Peripheral::Blk(d) => VirtioDevice::offers(d),
            Peripheral::Net(d) => VirtioDevice::offers(d),
            Peripheral::Console(d) => VirtioDevice::offers(d),
            Peripheral::Gpu(d) => VirtioDevice::offers(d),
            Peripheral::Input(d) => VirtioDevice::offers(d),
            Peripheral::Vsock(d) => VirtioDevice::offers(d),
        }
    }

    open spec fn sizes(&self) -> Seq<u16> {
        match self {
            Peripheral::Blk(d) => VirtioDevice::sizes(d),
            Peripheral::Net(d) => VirtioDevice::sizes(d),
            Peripheral::Console(d) => VirtioDevice::sizes(d),
            Peripheral::Gpu(d) => VirtioDevice::sizes(d),
            Peripheral::Input(d) => VirtioDevice::sizes(d),
            Peripheral::Vsock(d) => VirtioDevice::sizes(d),
        }
    }

    open spec fn config(&self) -> Seq<u8> {
        match self {
            Peripheral::Blk(d) => VirtioDevice::config(d),
            Peripheral::Net(d) => VirtioDevice::config(d),
            Peripheral::Console(d) => VirtioDevice::config(d),
            Peripheral::Gpu(d) => VirtioDevice::config(d),
            Peripheral::Input(d) => VirtioDevice::config(d),
            Peripheral::Vsock(d) => VirtioDevice::config(d),
        }
    }

    open spec fn configured(pre: Self, offset: u64, data: Seq<u8>, post: Self) -> bool {
        match (pre, post) {
            (Peripheral::Blk(a), Peripheral::Blk(b)) => VirtioBlk::<B>::configured(a, offset, data, b),
            (Peripheral::Net(a), Peripheral::Net(b)) => VirtioNet::<N>::configured(a, offset, data, b),
            (Peripheral::Console(a), Peripheral::Console(b)) => VirtioConsole::<C>::configured(a, offset, data, b),
            (Peripheral::Gpu(a), Peripheral::Gpu(b)) => VirtioGpu::<D>::configured(a, offset, data, b),
            (Peripheral::Input(a), Peripheral::Input(b)) => VirtioInput::configured(a, offset, data, b),
            (Peripheral::Vsock(a), Peripheral::Vsock(b)) => VirtioVsock::configured(a, offset, data, b),
            _ => false,
        }
    }

    open spec fn agreed(pre: Self, features: u64, post: Self, ok: bool) -> bool {
        match (pre, post) {
            (Peripheral::Blk(a), Peripheral::Blk(b)) => VirtioBlk::<B>::agreed(a, features, b, ok),
            (Peripheral::Net(a), Peripheral::Net(b)) => VirtioNet::<N>::agreed(a, features, b, ok),
            (Peripheral::Console(a), Peripheral::Console(b)) => VirtioConsole::<C>::agreed(a, features, b, ok),
            (Peripheral::Gpu(a), Peripheral::Gpu(b)) => VirtioGpu::<D>::agreed(a, features, b, ok),
            (Peripheral::Input(a), Peripheral::Input(b)) => VirtioInput::agreed(a, features, b, ok),
            (Peripheral::Vsock(a), Peripheral::Vsock(b)) => VirtioVsock::agreed(a, features, b, ok),
            _ => false,
        }
    }

    open spec fn cleared(pre: Self, post: Self) -> bool {
        match (pre, post) {
            (Peripheral::Blk(a), Peripheral::Blk(b)) => VirtioBlk::<B>::cleared(a, b),
            (Peripheral::Net(a), Peripheral::Net(b)) => VirtioNet::<N>::cleared(a, b),
            (Peripheral::Console(a), Peripheral::Console(b)) => VirtioConsole::<C>::cleared(a, b),
            (Peripheral::Gpu(a), Peripheral::Gpu(b)) => VirtioGpu::<D>::cleared(a, b),
            (Peripheral::Input(a), Peripheral::Input(b)) => VirtioInput::cleared(a, b),
            (Peripheral::Vsock(a), Peripheral::Vsock(b)) => VirtioVsock::cleared(a, b),
            _ => false,
        }
    }

    open spec fn served(
        pre: Self,
        before: Work,
        post: Self,
        after: Work,
        r: Result<(), QueueError>,
    ) -> bool {
        match (pre, post) {
            (Peripheral::Blk(a), Peripheral::Blk(b)) => VirtioBlk::<B>::served(a, before, b, after, r),
            (Peripheral::Net(a), Peripheral::Net(b)) => VirtioNet::<N>::served(a, before, b, after, r),
            (Peripheral::Console(a), Peripheral::Console(b)) => VirtioConsole::<C>::served(a, before, b, after, r),
            (Peripheral::Gpu(a), Peripheral::Gpu(b)) => VirtioGpu::<D>::served(a, before, b, after, r),
            (Peripheral::Input(a), Peripheral::Input(b)) => VirtioInput::served(a, before, b, after, r),
            (Peripheral::Vsock(a), Peripheral::Vsock(b)) => VirtioVsock::served(a, before, b, after, r),
            _ => false,
        }
    }

    fn device_id(&self) -> (r: u32) {
        match self {
            Peripheral::Blk(d) => d.device_id(),
            Peripheral::Net(d) => d.device_id(),
            Peripheral::Console(d) => d.device_id(),
            Peripheral::Gpu(d) => d.device_id(),
            Peripheral::Input(d) => d.device_id(),
            Peripheral::Vsock(d) => d.device_id(),
        }
    }

    fn features(&self) -> (r: u64) {
        match self {
            Peripheral::Blk(d) => d.features(),
            Peripheral::Net(d) => d.features(),
            Peripheral::Console(d) => d.features(),
            Peripheral::Gpu(d) => d.features(),
            Peripheral::Input(d) => d.features(),
            Peripheral::Vsock(d) => d.features(),
        }
    }

    fn queue_max_sizes(&self) -> (r: Vec<u16>) {
        match self {
            Peripheral::Blk(d) => d.queue_max_sizes(),
            Peripheral::Net(d) => d.queue_max_sizes(),
            Peripheral::Console(d) => d.queue_max_sizes(),
            Peripheral::Gpu(d) => d.queue_max_sizes(),
            Peripheral::Input(d) => d.queue_max_sizes(),
            Peripheral::Vsock(d) => d.queue_max_sizes(),
        }
    }

    fn read_config(&self, offset: u64, data: &mut [u8]) {
        match self {
            Peripheral::Blk(d) => d.read_config(offset, data),
            Peripheral::Net(d) => d.read_config(offset, data),
            Peripheral::Console(d) => d.read_config(offset, data),
            Peripheral::Gpu(d) => d.read_config(offset, data),
            Peripheral::Input(d) => d.read_config(offset, data),
            Peripheral::Vsock(d) => d.read_config(offset, data),
        }
    }

    fn write_config(&mut self, offset: u64, data: &[u8]) {
        match self {
            Peripheral::Blk(d) => d.write_config(offset, data),
            Peripheral::Net(d) => d.write_config(offset, data),
            Peripheral::Console(d) => d.write_config(offset, data),
            Peripheral::Gpu(d) => d.write_config(offset, data),
            Peripheral::Input(d) => d.write_config(offset, data),
            Peripheral::Vsock(d) => d.write_config(offset, data),
        }
    }

    fn negotiate(&mut self, features: u64) -> (r: bool) {
        match self {
            Peripheral::Blk(d) => d.negotiate(features),
            Peripheral::Net(d) => d.negotiate(features),
            Peripheral::Console(d) => d.negotiate(features),
            Peripheral::Gpu(d) => d.negotiate(features),
            Peripheral::Input(d) => d.negotiate(features),
            Peripheral::Vsock(d) => d.negotiate(features),
        }
    }

    fn reset(&mut self) {
        match self {
            Peripheral::Blk(d) => VirtioDevice::reset(d),
            Peripheral::Net(d) => VirtioDevice::reset(d),
            Peripheral::Console(d) => VirtioDevice::reset(d),
            Peripheral::Gpu(d) => VirtioDevice::reset(d),
            Peripheral::Input(d) => VirtioDevice::reset(d),
            Peripheral::Vsock(d) => VirtioDevice::reset(d),
        }
    }

    fn service<R: GuestRam>(&mut self, ctx: &mut ServiceCtx, ram: &mut R) -> (r: Result<
        (),
        QueueError,
    >) {
        match self {
            Peripheral::Blk(d) => d.service(ctx, ram),
            Peripheral::Net(d) => d.service(ctx, ram),
            Peripheral::Console(d) => d.service(ctx, ram),
            Peripheral::Gpu(d) => d.service(ctx, ram),
            Peripheral::Input(d) => d.service(ctx, ram),
            Peripheral::Vsock(d) => d.service(ctx, ram),
        }
    }
}

impl<B, N, C, D> Holds<VirtioBlk<B>> for Peripheral<B, N, C, D> {
    open spec fn held(&self) -> Option<VirtioBlk<B>> {
        match self {
            Peripheral::Blk(d) => Some(*d),
            _ => None,
        }
    }

    fn get(&self) -> (r: Option<&VirtioBlk<B>>) {
        match self {
            Peripheral::Blk(d) => Some(d),
            _ => None,
        }
    }

    fn get_mut(&mut self) -> (r: Option<&mut VirtioBlk<B>>) {
        match self {
            Peripheral::Blk(d) => Some(d),
            _ => None,
        }
    }
}

impl<B, N, C, D> Holds<VirtioNet<N>> for Peripheral<B, N, C, D> {
    open spec fn held(&self) -> Option<VirtioNet<N>> {
        match self {
            Peripheral::Net(d) => Some(*d),
            _ => None,
        }
    }

    fn get(&self) -> (r: Option<&VirtioNet<N>>) {
        match self {
            Peripheral::Net(d) => Some(d),
            _ => None,
        }
    }

    fn get_mut(&mut self) -> (r: Option<&mut VirtioNet<N>>) {
        match self {
            Peripheral::Net(d) => Some(d),
            _ => None,
        }
    }
}

impl<B, N, C, D> Holds<VirtioConsole<C>> for Peripheral<B, N, C, D> {
    open spec fn held(&self) -> Option<VirtioConsole<C>> {
        match self {
            Peripheral::Console(d) => Some(*d),
            _ => None,
        }
    }

    fn get(&self) -> (r: Option<&VirtioConsole<C>>) {
        match self {
            Peripheral::Console(d) => Some(d),
            _ => None,
        }
    }

    fn get_mut(&mut self) -> (r: Option<&mut VirtioConsole<C>>) {
        match self {
            Peripheral::Console(d) => Some(d),
            _ => None,
        }
    }
}

impl<B, N, C, D> Holds<VirtioGpu<D>> for Peripheral<B, N, C, D> {
    open spec fn held(&self) -> Option<VirtioGpu<D>> {
        match self {
            Peripheral::Gpu(d) => Some(*d),
            _ => None,
        }
    }

    fn get(&self) -> (r: Option<&VirtioGpu<D>>) {
        match self {
            Peripheral::Gpu(d) => Some(d),
            _ => None,
        }
    }

    fn get_mut(&mut self) -> (r: Option<&mut VirtioGpu<D>>) {
        match self {
            Peripheral::Gpu(d) => Some(d),
            _ => None,
        }
    }
}

impl<B, N, C, D> Holds<VirtioInput> for Peripheral<B, N, C, D> {
    open spec fn held(&self) -> Option<VirtioInput> {
        match self {
            Peripheral::Input(d) => Some(*d),
            _ => None,
        }
    }

    fn get(&self) -> (r: Option<&VirtioInput>) {
        match self {
            Peripheral::Input(d) => Some(d),
            _ => None,
        }
    }

    fn get_mut(&mut self) -> (r: Option<&mut VirtioInput>) {
        match self {
            Peripheral::Input(d) => Some(d),
            _ => None,
        }
    }
}

impl<B, N, C, D> Holds<VirtioVsock> for Peripheral<B, N, C, D> {
    open spec fn held(&self) -> Option<VirtioVsock> {
        match self {
            Peripheral::Vsock(d) => Some(*d),
            _ => None,
        }
    }

    fn get(&self) -> (r: Option<&VirtioVsock>) {
        match self {
            Peripheral::Vsock(d) => Some(d),
            _ => None,
        }
    }

    fn get_mut(&mut self) -> (r: Option<&mut VirtioVsock>) {
        match self {
            Peripheral::Vsock(d) => Some(d),
            _ => None,
        }
    }
}

} // verus!
