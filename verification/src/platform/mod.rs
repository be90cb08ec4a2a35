//! The devices of the board and its memory map.
pub mod bus;
pub mod fdt;
pub mod fdt_laws;
pub mod gic;
pub mod gic_laws;
pub mod map;
pub mod pl011;
pub mod pl031;
pub mod pl061;
pub mod saved;
pub mod timer;
pub mod virt;
pub mod virt_tree;
pub mod virtio;

pub use bus::{Bus, BusError, DeviceId, MmioDevice};
pub use fdt::{virt_dtb, FdtBuilder, FdtError, VirtDtbConfig};
pub use gic::Gic;
pub use pl011::Pl011;
pub use pl031::Pl031;
pub use timer::{GenericTimer, TimerChannel};
pub use virt::Virt;
pub use virtio::VirtioMmioEmpty;
