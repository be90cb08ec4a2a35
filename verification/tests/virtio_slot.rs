use vetro::platform::virtio::{DEVICE_ID, MAGIC_VALUE, VERSION, VirtioMmioEmpty, read_config_bytes};
use vetro::platform::virtio::ram::{RamError, VecRam};
use vetro::platform::virtio::ram::GuestRamExt;
use vetro::platform::virtio::ram::GuestRam;
use vetro::platform::bus::MmioDevice;

#[test]
fn mod_slot_vuoto_riconoscibile() {
    let mut v = VirtioMmioEmpty;
    assert_eq!(v.read(MAGIC_VALUE, 4), 0x7472_6976);
    assert_eq!(v.read(VERSION, 4), 2);
    assert_eq!(v.read(DEVICE_ID, 4), 0);
    v.write(0x070, 4, 0xF);
    assert_eq!(v.read(0x070, 4), 0);
}

#[test]
fn vec_ram_rifiuta_accessi_fuori_limite() {
    let mut r = VecRam::new(0x1000, 16);
    assert!(r.write(0x1008, &[1; 8]).is_ok());
    assert_eq!(r.write(0x1009, &[1; 8]), Err(RamError { addr: 0x1009, len: 8 }));
    assert!(r.read(0xFFF, &mut [0; 1]).is_err());
    assert!(r.read(u64::MAX, &mut [0; 2]).is_err());
    assert_eq!(r.read_u64(0x1008), Ok(0x0101_0101_0101_0101));
}

#[test]
fn config_oltre_la_fine_vale_zero() {
    let mut d = [0xFF; 4];
    read_config_bytes(&[1, 2, 3], 1, &mut d);
    assert_eq!(d, [2, 3, 0, 0]);
}

#[test]
fn virtio_slot_vuoto_riconoscibile() {
    let mut v = VirtioMmioEmpty;
    assert_eq!(v.read(MAGIC_VALUE, 4), 0x7472_6976);
    assert_eq!(v.read(VERSION, 4), 2);
    assert_eq!(v.read(DEVICE_ID, 4), 0);
    v.write(0x070, 4, 0xF);
    assert_eq!(v.read(0x070, 4), 0);
}
