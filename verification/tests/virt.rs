use std::collections::HashMap;
use vetro::platform::{pl011, pl031, timer, virtio as vio};
use vetro::platform::virt::{Virt, VirtioSlotError};
use vetro::platform::gic::{GICD_CTLR, GICD_CTLR_ENABLE_GRP1, GICD_ICFGR, GICD_IGROUPR, GICD_ISENABLER, GICD_PIDR2, GICR_IGROUPR0, GICR_ISENABLER0, GICR_PIDR2, GICR_SGI_BASE, GICR_WAKER};
use vetro::platform::virtio::disk::{MemBackend};
use vetro::platform::virtio::blk::{VirtioBlk, VirtioBlkConfig};
use vetro::platform::virtio::mmio::{VirtioMmio};
use vetro::platform::virtio::queue::{DESC_F_INDIRECT, DESC_F_NEXT, DESC_F_WRITE};
use vetro::platform::virtio::ram::{VecRam};
use vetro::platform::virtio::{CONFIG, DEVICE_FEATURES, DEVICE_FEATURES_SEL, DRIVER_FEATURES, DRIVER_FEATURES_SEL, F_EVENT_IDX, INTERRUPT_ACK, INTERRUPT_STATUS, MAGIC, MAGIC_VALUE, QUEUE_DESC_LOW, QUEUE_DEVICE_LOW, QUEUE_DRIVER_LOW, QUEUE_NOTIFY, QUEUE_NUM, QUEUE_NUM_MAX, QUEUE_READY, QUEUE_SEL, STATUS, STATUS_ACKNOWLEDGE, STATUS_DRIVER, STATUS_DRIVER_OK, STATUS_FEATURES_OK, VERSION, VirtioDevice};
use vetro::platform::virtio::ram::GuestRamExt;
use vetro::platform::virtio::ram::GuestRam;
use vetro::platform::bus::MmioDevice;

/// Il disco dei test.
type Disco = VirtioBlk<MemBackend>;

const GICR: u64 = vetro::platform::map::GICR_BASE;

fn init_gic(v: &mut Virt<Disco>) {
    let b = &mut v.bus;
    assert!(b.write(GICR + GICR_WAKER, 4, 0));
    b.write(vetro::platform::map::GICD_BASE + GICD_CTLR, 4, u64::from(GICD_CTLR_ENABLE_GRP1));
    b.write(vetro::platform::map::GICD_BASE + GICD_IGROUPR + 4, 4, 0xFFFF_FFFF);
    b.write(GICR + GICR_SGI_BASE + GICR_IGROUPR0, 4, 0xFFFF_FFFF);
    let g = v.gic_mut();
    g.write_pmr(0xF0);
    g.write_igrpen1(1);
}

#[test]
fn mappa_della_memoria() {
    let mut v: Virt<Disco> = Virt::new(0);
    assert_eq!(v.bus.read(vetro::platform::map::GICD_BASE + GICD_PIDR2, 4), Some(0x3B));
    assert_eq!(v.bus.read(GICR + GICR_PIDR2, 4), Some(0x3B));
    assert_eq!(v.bus.read(vetro::platform::map::UART_BASE + 0xFE0, 4), Some(0x11));
    assert_eq!(v.bus.read(vetro::platform::map::RTC_BASE + 0xFE0, 4), Some(0x31));
    for k in [0, 31] {
        let base = vetro::platform::map::VIRTIO_BASE + k * vetro::platform::map::VIRTIO_SLOT_SIZE;
        assert_eq!(v.bus.read(base + vio::MAGIC_VALUE, 4), Some(u64::from(vio::MAGIC)));
    }
    assert_eq!(v.bus.read(vetro::platform::map::VIRTIO_BASE + 32 * vetro::platform::map::VIRTIO_SLOT_SIZE, 4), None);
    assert_eq!(v.bus.read(vetro::platform::map::RAM_BASE, 4), None, "la RAM non passa dal bus MMIO");
    assert_eq!(v.bus.read(0x0900_2000, 4), None);
}

#[test]
fn uart_scrive_verso_l_host() {
    let mut v: Virt<Disco> = Virt::new(0);
    for &c in b"ok\n" {
        v.bus.write(vetro::platform::map::UART_BASE + pl011::DR, 1, u64::from(c));
    }
    assert_eq!(v.uart_mut().take_output(), b"ok\n");
}

#[test]
fn interrupt_della_uart_arriva_alla_cpu() {
    let mut v: Virt<Disco> = Virt::new(0);
    init_gic(&mut v);
    let intid = vetro::platform::map::SPI_BASE + vetro::platform::map::UART_SPI;
    v.bus.write(vetro::platform::map::GICD_BASE + GICD_ISENABLER + 4, 4, 1 << (intid % 32));
    v.bus.write(vetro::platform::map::UART_BASE + pl011::CR, 4, 0x301);
    v.bus.write(vetro::platform::map::UART_BASE + pl011::IMSC, 4, u64::from(pl011::INT_RX));
    v.uart_mut().push_input(b"k");
    assert!(!v.irq_line(), "serve update_irqs");
    v.update_irqs(0);
    assert!(v.irq_line());
    assert_eq!(v.gic_mut().read_iar1(), u64::from(intid));
    assert_eq!(v.bus.read(vetro::platform::map::UART_BASE + pl011::DR, 4), Some(u64::from(b'k')));
    v.update_irqs(0);
    v.gic_mut().write_eoir1(u64::from(intid));
    assert!(!v.irq_line());
}

#[test]
fn timer_virtuale_sul_ppi_27() {
    let mut v: Virt<Disco> = Virt::new(0);
    init_gic(&mut v);
    v.bus.write(GICR + GICR_SGI_BASE + GICR_ISENABLER0, 4, 1 << vetro::platform::map::PPI_VTIMER);
    v.timer.set_cntv_cval(1000);
    v.timer.set_cntv_ctl(timer::CTL_ENABLE);
    v.update_irqs(999);
    assert!(!v.irq_line());
    v.update_irqs(1000);
    assert_eq!(v.gic_mut().read_iar1(), u64::from(vetro::platform::map::PPI_VTIMER));
    // Il guest spegne il timer nell'handler, poi EOI.
    v.timer.set_cntv_ctl(0);
    v.update_irqs(1001);
    v.gic_mut().write_eoir1(u64::from(vetro::platform::map::PPI_VTIMER));
    assert!(!v.irq_line());
}

#[test]
fn allarme_rtc_sullo_spi_2() {
    let mut v: Virt<Disco> = Virt::new(100);
    init_gic(&mut v);
    let intid = vetro::platform::map::SPI_BASE + vetro::platform::map::RTC_SPI;
    v.bus.write(vetro::platform::map::GICD_BASE + GICD_ISENABLER + 4, 4, 1 << (intid % 32));
    v.bus.write(vetro::platform::map::RTC_BASE + pl031::MR, 4, 105);
    v.bus.write(vetro::platform::map::RTC_BASE + pl031::IMSC, 4, 1);
    v.rtc_mut().set_time(106);
    v.update_irqs(0);
    assert_eq!(v.gic_mut().read_hppir1(), u64::from(intid));
    assert_eq!(v.bus.read(vetro::platform::map::RTC_BASE + pl031::DR, 4), Some(106));
}

// ---- virtio -------------------------------------------------------------


fn disco() -> Disco {
    VirtioBlk::new(MemBackend::new(4096), VirtioBlkConfig::default())
}

fn slot_base(k: u32) -> u64 {
    vetro::platform::map::VIRTIO_BASE + u64::from(k) * vetro::platform::map::VIRTIO_SLOT_SIZE
}

#[test]
fn scelta_degli_slot_virtio() {
    let mut v: Virt<Disco> = Virt::new(0);
    assert_eq!(v.attach_virtio_next(disco()), Ok(31), "come QEMU: dall'alto");
    assert_eq!(v.attach_virtio_next(disco()), Ok(30));
    assert_eq!(v.attach_virtio(31, disco()), Err(VirtioSlotError::Occupied(31)));
    assert_eq!(v.attach_virtio(32, disco()), Err(VirtioSlotError::NoSuchSlot(32)));
    assert_eq!(v.attach_virtio(5, disco()), Ok(()));
    assert_eq!(v.bus.read(slot_base(5) + vio::DEVICE_ID, 4), Some(u64::from(vio::ID_BLOCK)));
    assert_eq!(v.bus.read(slot_base(31) + vio::DEVICE_ID, 4), Some(u64::from(vio::ID_BLOCK)));
    assert_eq!(v.bus.read(slot_base(4) + vio::DEVICE_ID, 4), Some(0), "slot libero");
    assert_eq!(v.bus.read(slot_base(4) + vio::MAGIC_VALUE, 4), Some(u64::from(vio::MAGIC)));
    assert!(v.virtio(5).unwrap().device_as::<Disco>().is_some());
    for k in 0..32 {
        if ![5, 30, 31].contains(&k) {
            v.attach_virtio(k, disco()).unwrap();
        }
    }
    assert_eq!(v.attach_virtio_next(disco()), Err(VirtioSlotError::Full));
}

/// Il driver di prova che passa dal bus della piattaforma.
struct Porta {
    v: Virt<Disco>,
    slot: u32,
}

impl Transport for Porta {
    fn rd(&mut self, off: u64) -> u32 {
        self.v.bus.read(slot_base(self.slot) + off, 4).unwrap() as u32
    }
    fn wr(&mut self, off: u64, val: u32) {
        assert!(self.v.bus.write(slot_base(self.slot) + off, 4, u64::from(val)));
    }
    fn cfg(&mut self, off: u64, size: u8) -> u64 {
        self.v.bus.read(slot_base(self.slot) + vio::CONFIG + off, size).unwrap()
    }
    fn cfg_wr(&mut self, off: u64, size: u8, val: u64) {
        self.v.bus.write(slot_base(self.slot) + vio::CONFIG + off, size, val);
    }
    fn service(&mut self, ram: &mut VecRam) {
        self.v.service_virtio(ram);
        self.v.update_irqs(0);
    }
}

#[test]
fn richiesta_virtio_blk_fino_all_interrupt_del_gic() {
    let mut v: Virt<Disco> = Virt::new(0);
    let slot = v.attach_virtio_next(disco()).unwrap();
    init_gic(&mut v);
    let intid = vetro::platform::map::SPI_BASE + vetro::platform::map::VIRTIO_SPI_BASE + slot;
    assert_eq!(intid, 79);
    let (reg, bit) = (u64::from(intid / 32) * 4, intid % 32);
    v.bus.write(vetro::platform::map::GICD_BASE + GICD_IGROUPR + reg, 4, 0xFFFF_FFFF);
    v.bus.write(vetro::platform::map::GICD_BASE + GICD_ISENABLER + reg, 4, 1 << bit);
    // A fronte di salita, come dichiarato nel device tree.
    let cfg_reg = u64::from(intid / 16) * 4;
    v.bus.write(vetro::platform::map::GICD_BASE + GICD_ICFGR + cfg_reg, 4, 2 << ((intid % 16) * 2));

    let mut d = Driver::new(Porta { v, slot });
    d.init(u64::MAX, 8);
    let h = d.buf(&[0, 0, 0, 0, 0, 0, 0, 0, 1, 0, 0, 0, 0, 0, 0, 0]); // IN, settore 1
    let data = d.allocate(512, 8);
    let st = d.buf(&[0xFF]);
    d.add(0, &[(h, 16, false), (data, 512, true), (st, 1, true)]);
    assert!(!d.t.v.irq_line(), "prima del servizio niente interrupt");
    d.service();
    assert!(d.t.v.irq_line());
    assert_eq!(d.t.v.gic_mut().read_iar1(), u64::from(intid));
    // Handler del guest: legge e riconosce InterruptStatus, consuma lo used ring.
    assert_eq!(d.irq(), vio::INT_VRING);
    assert_eq!(d.pop_used(0).map(|u| u.1), Some(513));
    assert_eq!(d.mem(st, 1), [0]);
    d.t.v.update_irqs(0);
    d.t.v.gic_mut().write_eoir1(u64::from(intid));
    assert!(!d.t.v.irq_line());
}

// ---- Driver di prova ------------------------------------------------------------

/// Base della RAM finta: la stessa della macchina virt.
pub const RAM_BASE: u64 = 0x4000_0000;
const RAM_SIZE: usize = 8 << 20;

/// Come il driver raggiunge i registri del trasporto.
pub trait Transport {
    fn rd(&mut self, off: u64) -> u32;
    fn wr(&mut self, off: u64, v: u32);
    fn cfg(&mut self, off: u64, size: u8) -> u64;
    fn cfg_wr(&mut self, off: u64, size: u8, v: u64);
    fn service(&mut self, ram: &mut VecRam);
}

impl<V: VirtioDevice> Transport for VirtioMmio<V> {
    fn rd(&mut self, off: u64) -> u32 {
        self.read(off, 4) as u32
    }
    fn wr(&mut self, off: u64, v: u32) {
        self.write(off, 4, u64::from(v));
    }
    fn cfg(&mut self, off: u64, size: u8) -> u64 {
        self.read(CONFIG + off, size)
    }
    fn cfg_wr(&mut self, off: u64, size: u8, v: u64) {
        self.write(CONFIG + off, size, v);
    }
    fn service(&mut self, ram: &mut VecRam) {
        VirtioMmio::service(self, ram);
    }
}

pub struct DrvQueue {
    pub size: u16,
    pub desc: u64,
    pub avail: u64,
    pub used: u64,
    free: Vec<u16>,
    avail_idx: u16,
    last_used: u16,
    /// Descrittori (diretti) occupati da ogni catena, per testa.
    chains: HashMap<u16, Vec<u16>>,
}

pub struct Driver<T: Transport> {
    pub t: T,
    pub ram: VecRam,
    next: u64,
    pub queues: Vec<DrvQueue>,
    pub features: u64,
}

/// Buffer di una catena: (indirizzo, lunghezza, scrivibile dal dispositivo).
pub type B = (u64, u32, bool);

impl<T: Transport> Driver<T> {
    pub fn new(t: T) -> Self {
        Self { t, ram: VecRam::new(RAM_BASE, RAM_SIZE), next: RAM_BASE, queues: Vec::new(), features: 0 }
    }

    pub fn allocate(&mut self, len: u64, align: u64) -> u64 {
        let a = self.next.next_multiple_of(align);
        self.next = a + len.max(1);
        assert!(self.next <= RAM_BASE + RAM_SIZE as u64, "RAM finta esaurita");
        a
    }

    /// Buffer con il contenuto dato.
    pub fn buf(&mut self, data: &[u8]) -> u64 {
        let a = self.allocate(data.len() as u64, 8);
        self.ram.write(a, data).unwrap();
        a
    }

    pub fn mem(&self, addr: u64, len: usize) -> Vec<u8> {
        let mut v = vec![0; len];
        self.ram.read(addr, &mut v).unwrap();
        v
    }

    fn status(&mut self, bits: u32) {
        let s = self.t.rd(STATUS);
        self.t.wr(STATUS, s | bits);
    }

    /// Fino a FEATURES_OK: reset, ACKNOWLEDGE, DRIVER, feature `offerte &
    /// wanted`. Restituisce lo Status riletto.
    pub fn negotiate(&mut self, wanted: u64) -> u32 {
        assert_eq!(self.t.rd(MAGIC_VALUE), MAGIC);
        assert_eq!(self.t.rd(VERSION), 2);
        self.t.wr(STATUS, 0);
        assert_eq!(self.t.rd(STATUS), 0);
        self.status(STATUS_ACKNOWLEDGE);
        self.status(STATUS_DRIVER);
        self.t.wr(DEVICE_FEATURES_SEL, 1);
        let mut offered = u64::from(self.t.rd(DEVICE_FEATURES)) << 32;
        self.t.wr(DEVICE_FEATURES_SEL, 0);
        offered |= u64::from(self.t.rd(DEVICE_FEATURES));
        self.features = offered & wanted;
        self.t.wr(DRIVER_FEATURES_SEL, 1);
        self.t.wr(DRIVER_FEATURES, (self.features >> 32) as u32);
        self.t.wr(DRIVER_FEATURES_SEL, 0);
        self.t.wr(DRIVER_FEATURES, self.features as u32);
        self.status(STATUS_FEATURES_OK);
        self.t.rd(STATUS)
    }

    /// Negoziazione completa, code (al massimo `qsize` voci) e DRIVER_OK.
    pub fn init(&mut self, wanted: u64, qsize: u16) -> u64 {
        let st = self.negotiate(wanted);
        assert_ne!(st & STATUS_FEATURES_OK, 0, "FEATURES_OK rifiutato");
        self.queues.clear();
        for i in 0.. {
            self.t.wr(QUEUE_SEL, i);
            assert_eq!(self.t.rd(QUEUE_READY), 0);
            let max = self.t.rd(QUEUE_NUM_MAX);
            if max == 0 {
                break;
            }
            self.setup_queue((max as u16).min(qsize));
        }
        self.status(STATUS_DRIVER_OK);
        self.features
    }

    fn setup_queue(&mut self, size: u16) {
        let n = u64::from(size);
        let desc = self.allocate(16 * n, 16);
        let avail = self.allocate(6 + 2 * n, 2);
        let used = self.allocate(6 + 8 * n, 4);
        self.t.wr(QUEUE_NUM, u32::from(size));
        for (lo, a) in [(QUEUE_DESC_LOW, desc), (QUEUE_DRIVER_LOW, avail), (QUEUE_DEVICE_LOW, used)] {
            self.t.wr(lo, a as u32);
            self.t.wr(lo + 4, (a >> 32) as u32);
        }
        self.t.wr(QUEUE_READY, 1);
        assert_eq!(self.t.rd(QUEUE_READY), 1);
        self.queues.push(DrvQueue {
            size,
            desc,
            avail,
            used,
            free: (0..size).rev().collect(),
            avail_idx: 0,
            last_used: 0,
            chains: HashMap::new(),
        });
    }

    fn put_desc(&mut self, table: u64, i: u16, addr: u64, len: u32, flags: u16, next: u16) {
        let mut b = [0u8; 16];
        b[0..8].copy_from_slice(&addr.to_le_bytes());
        b[8..12].copy_from_slice(&len.to_le_bytes());
        b[12..14].copy_from_slice(&flags.to_le_bytes());
        b[14..16].copy_from_slice(&next.to_le_bytes());
        self.ram.write(table + 16 * u64::from(i), &b).unwrap();
    }

    /// Pubblica la testa nell'available ring e notifica la coda.
    fn publish(&mut self, qi: usize, head: u16) {
        let q = &mut self.queues[qi];
        let slot = u64::from(q.avail_idx % q.size);
        let (avail, idx) = (q.avail, q.avail_idx.wrapping_add(1));
        q.avail_idx = idx;
        self.ram.write_u16(avail + 4 + 2 * slot, head).unwrap();
        self.ram.write_u16(avail + 2, idx).unwrap();
        self.t.wr(QUEUE_NOTIFY, qi as u32);
    }

    /// Catena di descrittori diretti.
    pub fn add(&mut self, qi: usize, bufs: &[B]) -> u16 {
        let q = &mut self.queues[qi];
        let ids: Vec<u16> = (0..bufs.len()).map(|_| q.free.pop().expect("coda piena")).collect();
        let table = q.desc;
        for (k, &(addr, len, w)) in bufs.iter().enumerate() {
            let mut flags = if w { DESC_F_WRITE } else { 0 };
            let next = ids.get(k + 1).copied().unwrap_or(0);
            if k + 1 < bufs.len() {
                flags |= DESC_F_NEXT;
            }
            self.put_desc(table, ids[k], addr, len, flags, next);
        }
        self.queues[qi].chains.insert(ids[0], ids.clone());
        self.publish(qi, ids[0]);
        ids[0]
    }

    /// Catena in una tabella indiretta (un solo descrittore nella coda).
    pub fn add_indirect(&mut self, qi: usize, bufs: &[B]) -> u16 {
        let table = self.allocate(16 * bufs.len() as u64, 16);
        for (k, &(addr, len, w)) in bufs.iter().enumerate() {
            let mut flags = if w { DESC_F_WRITE } else { 0 };
            if k + 1 < bufs.len() {
                flags |= DESC_F_NEXT;
            }
            self.put_desc(table, k as u16, addr, len, flags, k as u16 + 1);
        }
        let q = &mut self.queues[qi];
        let head = q.free.pop().expect("coda piena");
        let desc = q.desc;
        self.put_desc(desc, head, table, 16 * bufs.len() as u32, DESC_F_INDIRECT, 0);
        self.queues[qi].chains.insert(head, vec![head]);
        self.publish(qi, head);
        head
    }

    /// Prossimo elemento dello used ring (testa, byte scritti), come
    /// `virtqueue_get_buf`; con EVENT_IDX aggiorna used_event come
    /// `virtqueue_enable_cb`.
    pub fn pop_used(&mut self, qi: usize) -> Option<(u16, u32)> {
        let event_idx = self.features & F_EVENT_IDX != 0;
        let q = &mut self.queues[qi];
        let idx = self.ram.read_u16(q.used + 2).unwrap();
        if idx == q.last_used {
            return None;
        }
        let e = q.used + 4 + 8 * u64::from(q.last_used % q.size);
        let id = self.ram.read_u32(e).unwrap() as u16;
        let len = self.ram.read_u32(e + 4).unwrap();
        q.last_used = q.last_used.wrapping_add(1);
        let ids = q.chains.remove(&id).expect("id restituito due volte");
        q.free.extend(ids);
        if event_idx {
            let at = q.avail + 4 + 2 * u64::from(q.size);
            let v = q.last_used;
            self.ram.write_u16(at, v).unwrap();
        }
        Some((id, len))
    }

    /// avail_event scritto dal dispositivo (con EVENT_IDX).
    pub fn avail_event(&self, qi: usize) -> u16 {
        let q = &self.queues[qi];
        self.ram.read_u16(q.used + 4 + 8 * u64::from(q.size)).unwrap()
    }

    pub fn set_avail_flags(&mut self, qi: usize, flags: u16) {
        let a = self.queues[qi].avail;
        self.ram.write_u16(a, flags).unwrap();
    }

    pub fn set_used_event(&mut self, qi: usize, v: u16) {
        let q = &self.queues[qi];
        let at = q.avail + 4 + 2 * u64::from(q.size);
        self.ram.write_u16(at, v).unwrap();
    }

    pub fn service(&mut self) {
        self.t.service(&mut self.ram);
    }

    /// Handler dell'interrupt: legge InterruptStatus e lo riconosce.
    pub fn irq(&mut self) -> u32 {
        let s = self.t.rd(INTERRUPT_STATUS);
        self.t.wr(INTERRUPT_ACK, s);
        s
    }
}

/// The regions of the bus, by name.
#[test]
fn regions_have_their_names() {
    let v: Virt<Disco> = Virt::new(1000);
    let names: Vec<&str> = v.bus.regions.iter().map(|r| r.name).collect();
    assert_eq!(names.len(), 35);
    assert_eq!(names[..3], ["gicv3", "pl011", "pl031"]);
    assert!(names[3..].iter().all(|n| *n == "virtio-mmio"));
}
