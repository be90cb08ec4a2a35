//! Memory map and interrupt numbers of the virt platform.
//!
//! Same addresses and same lines as QEMU's `virt` machine,
//! limited to what is emulated here.
use vstd::prelude::*;

verus! {

/// GICv3 distributor (GICD), 64 KiB.
pub const GICD_BASE: u64 = 0x0800_0000;
pub const GICD_SIZE: u64 = 0x1_0000;
/// GICv3 redistributor (GICR): two 64 KiB frames (RD and SGI) per CPU.
pub const GICR_BASE: u64 = 0x080A_0000;
pub const GICR_SIZE_PER_CPU: u64 = 0x2_0000;
/// PL011 UART.
pub const UART_BASE: u64 = 0x0900_0000;
pub const UART_SIZE: u64 = 0x1000;
/// PL031 RTC.
pub const RTC_BASE: u64 = 0x0901_0000;
pub const RTC_SIZE: u64 = 0x1000;
/// PL061 GPIO.
pub const GPIO_BASE: u64 = 0x0903_0000;
pub const GPIO_SIZE: u64 = 0x1000;
/// Virtio-mmio transports: 32 slots of 0x200 bytes.
pub const VIRTIO_BASE: u64 = 0x0A00_0000;
pub const VIRTIO_SLOT_SIZE: u64 = 0x200;
pub const VIRTIO_SLOTS: u64 = 32;
/// Start of the guest's RAM.
pub const RAM_BASE: u64 = 0x4000_0000;

/// First INTID of the SPIs: SPI `n` has INTID `SPI_BASE + n`.
pub const SPI_BASE: u32 = 32;
/// SPI of the UART (INTID 33).
pub const UART_SPI: u32 = 1;
/// SPI of the RTC (INTID 34).
pub const RTC_SPI: u32 = 2;
/// SPI of the GPIO (INTID 39).
pub const GPIO_SPI: u32 = 7;
/// SPI of the first virtio-mmio slot (INTID 48); slot `k` uses `16 + k`.
pub const VIRTIO_SPI_BASE: u32 = 16;

/// PPI of the virtual timer (INTID 27).
pub const PPI_VTIMER: u32 = 27;
/// PPI of the non-secure physical timer (INTID 30).
pub const PPI_PTIMER: u32 = 30;
/// PPI of the secure physical timer (INTID 29): only for the device tree.
pub const PPI_SEC_PTIMER: u32 = 29;
/// PPI of the hypervisor timer (INTID 26): only for the device tree.
pub const PPI_HYP_TIMER: u32 = 26;

/// Default frequency of CNTFRQ_EL0 (62.5 MHz, as QEMU with cortex-a53).
pub const CNTFRQ_HZ: u32 = 62_500_000;
/// Fixed clock of the PL011 declared in the device tree (24 MHz, as QEMU).
pub const UART_CLOCK_HZ: u32 = 24_000_000;

} // verus!
