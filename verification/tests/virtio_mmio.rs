use vetro::platform::virtio::{CONFIG, CONFIG_GENERATION, DEVICE_FEATURES, DEVICE_FEATURES_SEL, DEVICE_ID, DRIVER_FEATURES, DRIVER_FEATURES_SEL, F_EVENT_IDX, F_INDIRECT_DESC, F_VERSION_1, INTERRUPT_STATUS, MAGIC, MAGIC_VALUE, QUEUE_DESC_HIGH, QUEUE_DESC_LOW, QUEUE_DEVICE_HIGH, QUEUE_DEVICE_LOW, QUEUE_DRIVER_LOW, QUEUE_NUM, QUEUE_NUM_MAX, QUEUE_READY, QUEUE_SEL, SHM_LEN_HIGH, SHM_LEN_LOW, SHM_SEL, STATUS, STATUS_ACKNOWLEDGE, STATUS_DRIVER, STATUS_FEATURES_OK, ServiceCtx, VENDOR, VENDOR_ID, VERSION, VirtioDevice, read_config_bytes};
use vetro::platform::virtio::mmio::{VirtioMmio};
use vetro::platform::virtio::queue::{QueueError};
use vetro::platform::virtio::ram::{GuestRam};
use vetro::platform::bus::MmioDevice;

/// Dispositivo minimo: una coda che restituisce ogni catena con len 7.
struct Eco {
    cfg: [u8; 8],
    rifiuta: bool,
    reset: u32,
}

impl VirtioDevice for Eco {
    fn device_id(&self) -> u32 {
        42
    }
    fn features(&self) -> u64 {
        0b101
    }
    fn queue_max_sizes(&self) -> Vec<u16> {
        vec![16, 8]
    }
    fn read_config(&self, offset: u64, data: &mut [u8]) {
        read_config_bytes(&self.cfg, offset, data);
    }
    fn write_config(&mut self, offset: u64, data: &[u8]) {
        self.cfg[offset as usize..offset as usize + data.len()].copy_from_slice(data);
    }
    fn negotiate(&mut self, _features: u64) -> bool {
        !self.rifiuta
    }
    fn reset(&mut self) {
        self.reset += 1;
    }
    fn service<R: GuestRam>(&mut self, ctx: &mut ServiceCtx, ram: &mut R) -> Result<(), QueueError> {
        let q = &mut ctx.queues[0];
        while let Some(c) = q.pop(ram)? {
            q.push_used(ram, c.head, 7)?;
        }
        Ok(())
    }
}

fn eco() -> VirtioMmio<Eco> {
    VirtioMmio::new(Eco { cfg: [1, 2, 3, 4, 5, 6, 7, 8], rifiuta: false, reset: 0 })
}

fn rd(t: &mut VirtioMmio<Eco>, off: u64) -> u32 {
    t.read(off, 4) as u32
}

#[test]
fn identificazione_e_feature() {
    let mut t = eco();
    assert_eq!(rd(&mut t, MAGIC_VALUE), MAGIC);
    assert_eq!(rd(&mut t, VERSION), 2);
    assert_eq!(rd(&mut t, DEVICE_ID), 42);
    assert_eq!(rd(&mut t, VENDOR_ID), VENDOR);
    assert_eq!(rd(&mut t, DEVICE_FEATURES), 0b101 | (1 << 28) | (1 << 29));
    t.write(DEVICE_FEATURES_SEL, 4, 1);
    assert_eq!(rd(&mut t, DEVICE_FEATURES), 1, "VERSION_1 è il bit 32");
    t.write(DEVICE_FEATURES_SEL, 4, 2);
    assert_eq!(rd(&mut t, DEVICE_FEATURES), 0);
    let t = eco().without_features(F_EVENT_IDX | F_VERSION_1);
    assert_eq!(t.offered_features(), 0b101 | F_INDIRECT_DESC | F_VERSION_1);
}

#[test]
fn slot_vuoto_come_quello_di_qemu() {
    let mut t: VirtioMmio<Eco> = VirtioMmio::empty();
    assert_eq!(rd(&mut t, MAGIC_VALUE), MAGIC);
    assert_eq!(rd(&mut t, VERSION), 2);
    assert_eq!(rd(&mut t, DEVICE_ID), 0);
    assert_eq!(rd(&mut t, VENDOR_ID), 0);
    t.write(STATUS, 4, 1);
    assert_eq!(rd(&mut t, STATUS), 0);
    assert_eq!(t.read(CONFIG, 4), 0);
}

#[test]
fn accessi_non_a_32_bit_ignorati() {
    let mut t = eco();
    assert_eq!(t.read(MAGIC_VALUE, 2), 0);
    assert_eq!(t.read(MAGIC_VALUE + 1, 4), 0);
    t.write(STATUS, 1, 1);
    assert_eq!(rd(&mut t, STATUS), 0);
}

fn negozia(t: &mut VirtioMmio<Eco>, lo: u32, hi: u32) -> u32 {
    t.write(STATUS, 4, 0);
    t.write(STATUS, 4, u64::from(STATUS_ACKNOWLEDGE | STATUS_DRIVER));
    t.write(DRIVER_FEATURES_SEL, 4, 0);
    t.write(DRIVER_FEATURES, 4, u64::from(lo));
    t.write(DRIVER_FEATURES_SEL, 4, 1);
    t.write(DRIVER_FEATURES, 4, u64::from(hi));
    t.write(STATUS, 4, u64::from(STATUS_ACKNOWLEDGE | STATUS_DRIVER | STATUS_FEATURES_OK));
    rd(t, STATUS)
}

#[test]
fn features_ok_richiede_version_1_e_sottoinsieme() {
    let mut t = eco();
    assert_eq!(negozia(&mut t, 0b1, 0) & STATUS_FEATURES_OK, 0, "senza VERSION_1");
    assert_eq!(negozia(&mut t, 0b10, 1) & STATUS_FEATURES_OK, 0, "bit non offerto");
    assert_ne!(negozia(&mut t, 0b1, 1) & STATUS_FEATURES_OK, 0);
    assert_eq!(t.driver_features(), F_VERSION_1 | 1);
    // Dopo FEATURES_OK DriverFeatures non cambia più.
    t.write(DRIVER_FEATURES_SEL, 4, 0);
    t.write(DRIVER_FEATURES, 4, 0b100);
    assert_eq!(t.driver_features(), F_VERSION_1 | 1);
    t.device_as_mut::<Eco>().unwrap().rifiuta = true;
    assert_eq!(negozia(&mut t, 0b1, 1) & STATUS_FEATURES_OK, 0, "rifiutato dal dispositivo");
}

#[test]
fn configurazione_delle_code_e_reset() {
    let mut t = eco();
    negozia(&mut t, 0, 1);
    t.write(QUEUE_SEL, 4, 1);
    assert_eq!(rd(&mut t, QUEUE_NUM_MAX), 8);
    t.write(QUEUE_NUM, 4, 4);
    for (reg, v) in [(QUEUE_DESC_LOW, 0x1000), (QUEUE_DESC_HIGH, 1), (QUEUE_DRIVER_LOW, 0x2000)] {
        t.write(reg, 4, v);
    }
    t.write(QUEUE_DEVICE_LOW, 4, 0x3000);
    t.write(QUEUE_DEVICE_HIGH, 4, 2);
    t.write(QUEUE_READY, 4, 1);
    assert_eq!(rd(&mut t, QUEUE_READY), 1);
    let q = t.queue(1).unwrap();
    assert_eq!(q.size(), 4);
    assert_eq!(q.addrs(), (0x1_0000_1000, 0x2000, 0x2_0000_3000));
    assert_eq!(rd(&mut t, QUEUE_DESC_LOW), 0, "registro di sola scrittura");
    // Coda pronta: la configurazione non cambia più.
    t.write(QUEUE_NUM, 4, 2);
    t.write(QUEUE_DESC_LOW, 4, 0x5000);
    assert_eq!(t.queue(1).unwrap().size(), 4);
    assert_eq!(t.queue(1).unwrap().addrs().0, 0x1_0000_1000);
    // Coda inesistente.
    t.write(QUEUE_SEL, 4, 2);
    assert_eq!(rd(&mut t, QUEUE_NUM_MAX), 0);
    assert_eq!(rd(&mut t, QUEUE_READY), 0);
    // Reset.
    t.write(STATUS, 4, 0);
    assert_eq!(rd(&mut t, STATUS), 0);
    assert_eq!(t.driver_features(), 0);
    assert!(!t.queue(1).unwrap().ready());
    assert_eq!(t.queue(1).unwrap().size(), 8);
    assert_eq!(t.device_as::<Eco>().unwrap().reset, 3, "set_device e due volte Status = 0");
}

#[test]
fn coda_non_potenza_di_2_non_diventa_pronta() {
    let mut t = eco();
    t.write(QUEUE_NUM, 4, 12);
    t.write(QUEUE_READY, 4, 1);
    assert_eq!(rd(&mut t, QUEUE_READY), 0);
    t.write(QUEUE_NUM, 4, 0x1_0010);
    t.write(QUEUE_READY, 4, 1);
    assert_eq!(rd(&mut t, QUEUE_READY), 0);
}

#[test]
fn spazio_di_configurazione() {
    let mut t = eco();
    assert_eq!(t.read(CONFIG, 1), 1);
    assert_eq!(t.read(CONFIG + 2, 2), 0x0403);
    assert_eq!(t.read(CONFIG + 4, 4), 0x0807_0605);
    assert_eq!(t.read(CONFIG, 8), 0x0807_0605_0403_0201);
    assert_eq!(t.read(CONFIG + 6, 4), 0x0807, "oltre la fine si legge 0");
    t.write(CONFIG + 1, 1, 0xAA);
    assert_eq!(t.read(CONFIG, 2), 0xAA01);
}

#[test]
fn shm_assente_e_config_generation() {
    let mut t = eco();
    t.write(SHM_SEL, 4, 0);
    assert_eq!(rd(&mut t, SHM_LEN_LOW), u32::MAX);
    assert_eq!(rd(&mut t, SHM_LEN_HIGH), u32::MAX);
    assert_eq!(rd(&mut t, CONFIG_GENERATION), 0);
    t.signal_config_change();
    assert_eq!(rd(&mut t, CONFIG_GENERATION), 1);
    assert_eq!(rd(&mut t, INTERRUPT_STATUS), 0, "senza DRIVER_OK niente interrupt");
}
