use std::collections::HashMap;
use vetro::platform::virtio::input::{ABS_MT_POSITION_X, ABS_MT_POSITION_Y, ABS_MT_SLOT, ABS_MT_TRACKING_ID, ABS_X, ABS_Y, BTN_TOUCH, CFG_ABS_INFO, CFG_EV_BITS, CFG_ID_DEVIDS, CFG_ID_NAME, CFG_ID_SERIAL, CFG_PROP_BITS, EV_ABS, EV_KEY, EV_LED, EV_REL, EV_REP, INPUT_PROP_DIRECT, InputConfig, InputEvent, LED_CAPSL, MAX_PENDING, VirtioInput};
use vetro::platform::virtio::queue::{DESC_F_INDIRECT, DESC_F_NEXT, DESC_F_WRITE};
use vetro::platform::virtio::ram::{VecRam};
use vetro::platform::virtio::mmio::{VirtioMmio};
use vetro::platform::virtio::{CONFIG, DEVICE_FEATURES, DEVICE_FEATURES_SEL, DEVICE_ID, DRIVER_FEATURES, DRIVER_FEATURES_SEL, F_EVENT_IDX, ID_INPUT, INTERRUPT_ACK, INTERRUPT_STATUS, INT_VRING, MAGIC, MAGIC_VALUE, QUEUE_DESC_LOW, QUEUE_DEVICE_LOW, QUEUE_DRIVER_LOW, QUEUE_NOTIFY, QUEUE_NUM, QUEUE_NUM_MAX, QUEUE_READY, QUEUE_SEL, STATUS, STATUS_ACKNOWLEDGE, STATUS_DRIVER, STATUS_DRIVER_OK, STATUS_FEATURES_OK, VERSION, VirtioDevice};
use vetro::platform::virtio::ram::GuestRamExt;
use vetro::platform::virtio::ram::GuestRam;
use vetro::platform::bus::MmioDevice;

const EVENTQ: usize = 0;
const STATUSQ: usize = 1;


fn driver(cfg: InputConfig) -> Driver<VirtioMmio<VirtioInput>> {
    let mut d = Driver::new(VirtioMmio::new(VirtioInput::new(cfg)));
    d.init(u64::MAX, 64);
    d
}

fn dev(d: &mut Driver<VirtioMmio<VirtioInput>>) -> &mut VirtioInput {
    d.t.device_as_mut::<VirtioInput>().unwrap()
}

/// Legge una voce come `virtinput_cfg_select` di Linux: scrive select e
/// subsel, legge size e poi i byte.
fn cfg(d: &mut Driver<VirtioMmio<VirtioInput>>, select: u8, subsel: u8) -> Vec<u8> {
    d.t.cfg_wr(0, 1, u64::from(select));
    d.t.cfg_wr(1, 1, u64::from(subsel));
    let size = d.t.cfg(2, 1) as usize;
    (0..size).map(|i| d.t.cfg(8 + i as u64, 1) as u8).collect()
}

/// Offre `n` buffer da 8 byte sulla coda eventi: (testa, indirizzo).
fn offer(d: &mut Driver<VirtioMmio<VirtioInput>>, n: usize) -> Vec<(u16, u64)> {
    (0..n)
        .map(|_| {
            let a = d.allocate(8, 8);
            (d.add(EVENTQ, &[(a, 8, true)]), a)
        })
        .collect()
}

/// Eventi restituiti nello used ring, in ordine.
fn received(d: &mut Driver<VirtioMmio<VirtioInput>>, bufs: &[(u16, u64)]) -> Vec<InputEvent> {
    let mut out = Vec::new();
    while let Some((head, len)) = d.pop_used(EVENTQ) {
        assert_eq!(len, 8);
        let &(_, a) = bufs.iter().find(|b| b.0 == head).expect("testa sconosciuta");
        out.push(InputEvent::from_bytes(&d.mem(a, 8).try_into().unwrap()));
    }
    out
}

#[test]
fn tastiera_come_qemu() {
    let mut d = driver(InputConfig::keyboard());
    assert_eq!(d.t.rd(DEVICE_ID), ID_INPUT);
    assert_eq!(d.features & 0xFF_FFFF, 0);
    for q in 0..2 {
        d.t.wr(QUEUE_SEL, q);
        assert_eq!(d.t.rd(QUEUE_NUM_MAX), 64);
    }
    assert_eq!(cfg(&mut d, CFG_ID_NAME, 0), b"QEMU Virtio Keyboard\0");
    assert_eq!(cfg(&mut d, CFG_ID_SERIAL, 0), b"", "senza seriale, come QEMU");
    assert_eq!(cfg(&mut d, CFG_ID_DEVIDS, 0), [6, 0, 0x27, 0x06, 1, 0, 1, 0]);
    assert_eq!(cfg(&mut d, CFG_EV_BITS, EV_REP as u8), [0], "EV_REP senza codici");
    assert_eq!(cfg(&mut d, CFG_EV_BITS, EV_LED as u8), [7]);
    let keys = cfg(&mut d, CFG_EV_BITS, EV_KEY as u8);
    // Lo stesso che Linux mostra in /proc/bus/input/devices sotto QEMU:
    // KEY=400000007 ff803078f800dfff febeffff7bcfffff fffffffffffffffe
    let words: Vec<u64> =
        keys.chunks(8).map(|c| c.iter().rev().fold(0u64, |a, &b| (a << 8) | u64::from(b))).collect();
    assert_eq!(words, [0xfffffffffffffffe, 0xfebeffff7bcfffff, 0xff803078f800dfff, 0x0000000400000007]);
    let n: u32 = keys.iter().map(|b| b.count_ones()).sum();
    assert_eq!(n, 159);
    assert_eq!(cfg(&mut d, CFG_EV_BITS, EV_ABS as u8), b"");
    assert_eq!(cfg(&mut d, CFG_PROP_BITS, 0), b"");
    // Voce assente: anche select e subsel si leggono 0 (come QEMU).
    d.t.cfg_wr(0, 1, u64::from(CFG_ABS_INFO));
    assert_eq!(d.t.cfg(0, 4), 0);
}

#[test]
fn tablet_e_touchscreen_come_qemu() {
    let mut d = driver(InputConfig::tablet());
    assert_eq!(cfg(&mut d, CFG_ID_NAME, 0), b"QEMU Virtio Tablet\0");
    assert_eq!(cfg(&mut d, CFG_ID_DEVIDS, 0), [6, 0, 0x27, 0x06, 3, 0, 2, 0]);
    // /proc/bus/input/devices sotto QEMU: EV=f KEY=30400 1f0000 0 0 0 0 REL=100 ABS=3.
    assert_eq!(cfg(&mut d, CFG_EV_BITS, EV_ABS as u8), [3]);
    assert_eq!(cfg(&mut d, CFG_EV_BITS, EV_REL as u8), [0, 1]);
    let keys = cfg(&mut d, CFG_EV_BITS, EV_KEY as u8);
    assert_eq!(keys.len(), 0x151 / 8 + 1);
    assert_eq!(&keys[0x110 / 8..], [0x1f, 0, 0, 0, 0, 0, 0, 0x04, 0x03]);
    let abs = cfg(&mut d, CFG_ABS_INFO, ABS_Y as u8);
    assert_eq!(abs, [0, 0, 0, 0, 0xff, 0x7f, 0, 0, 0, 0, 0, 0, 0, 0, 0, 0, 0, 0, 0, 0]);

    let mut d = driver(InputConfig::multitouch());
    assert_eq!(cfg(&mut d, CFG_ID_NAME, 0), b"QEMU Virtio MultiTouch\0");
    assert_eq!(cfg(&mut d, CFG_PROP_BITS, 0), [2], "INPUT_PROP_DIRECT");
    // ABS=260800000000000: bit 0x2f, 0x35, 0x36, 0x39.
    let abs = cfg(&mut d, CFG_EV_BITS, EV_ABS as u8);
    let v = abs.iter().rev().fold(0u64, |a, &b| (a << 8) | u64::from(b));
    assert_eq!(v, 0x260800000000000);
    assert_eq!(cfg(&mut d, CFG_ABS_INFO, ABS_MT_SLOT as u8)[4], 10);
}

#[test]
fn eventi_a_rapporti_interi() {
    let mut d = driver(InputConfig::keyboard());
    let bufs = offer(&mut d, 3);
    d.service();
    assert_eq!(d.irq(), 0, "nessun evento");
    dev(&mut d).key(30, true); // KEY_A: 2 eventi
    dev(&mut d).key(30, false); // altri 2: il secondo rapporto non entra
    d.service();
    assert_eq!(d.irq(), INT_VRING);
    let got = received(&mut d, &bufs);
    assert_eq!(got, [InputEvent::new(EV_KEY, 30, 1), InputEvent::syn()]);
    assert_eq!(dev(&mut d).pending(), 2, "il rilascio aspetta i buffer");
    // Rapporto incompleto (senza SYN): non parte.
    dev(&mut d).inject(&[InputEvent::new(EV_KEY, 31, 1)]);
    let mut bufs = bufs;
    bufs.extend(offer(&mut d, 4));
    d.service();
    let got = received(&mut d, &bufs);
    assert_eq!(got, [InputEvent::new(EV_KEY, 30, 0), InputEvent::syn()]);
    dev(&mut d).inject(&[InputEvent::syn()]);
    d.service();
    // Con il SYN il rapporto è completo e parte.
    assert_eq!(dev(&mut d).pending(), 0);
    assert_eq!(dev(&mut d).dropped(), 0);
}

#[test]
fn senza_driver_attivo_si_scarta() {
    let mut d = Driver::new(VirtioMmio::new(VirtioInput::new(InputConfig::tablet())));
    dev(&mut d).move_abs(100, 200);
    assert_eq!(dev(&mut d).dropped(), 3);
    d.init(u64::MAX, 64);
    let bufs = offer(&mut d, 8);
    d.service();
    dev(&mut d).move_abs(100, 200);
    d.service();
    let got = received(&mut d, &bufs);
    assert_eq!(
        got,
        [InputEvent::new(EV_ABS, ABS_X, 100), InputEvent::new(EV_ABS, ABS_Y, 200), InputEvent::syn()]
    );
    // Reset: il driver non è più attivo.
    d.t.wr(STATUS, 0);
    dev(&mut d).move_abs(1, 2);
    assert_eq!(dev(&mut d).pending(), 0);
}

#[test]
fn coda_piena_scarta_rapporti_interi() {
    let mut d = driver(InputConfig::keyboard());
    d.service();
    for _ in 0..MAX_PENDING / 2 {
        dev(&mut d).key(30, true);
    }
    assert_eq!(dev(&mut d).pending(), MAX_PENDING);
    dev(&mut d).key(31, true);
    dev(&mut d).inject(&[InputEvent::new(EV_KEY, 32, 1)]);
    assert_eq!(dev(&mut d).pending(), MAX_PENDING);
    assert_eq!(dev(&mut d).dropped(), 3);
    // Senza la fine del rapporto troncato si scarta anche il SYN.
    dev(&mut d).inject(&[InputEvent::syn()]);
    assert_eq!(dev(&mut d).dropped(), 4);
}

#[test]
fn touch_protocollo_b() {
    let mut d = driver(InputConfig::multitouch());
    let bufs = offer(&mut d, 16);
    d.service();
    dev(&mut d).touch(1, Some((10, 20)));
    dev(&mut d).touch(1, None);
    d.service();
    let got = received(&mut d, &bufs);
    let e = InputEvent::new;
    assert_eq!(
        got,
        [
            e(EV_ABS, ABS_MT_SLOT, 1),
            e(EV_ABS, ABS_MT_TRACKING_ID, 1),
            e(EV_ABS, ABS_MT_POSITION_X, 10),
            e(EV_ABS, ABS_MT_POSITION_Y, 20),
            e(EV_KEY, BTN_TOUCH, 1),
            InputEvent::syn(),
            e(EV_ABS, ABS_MT_SLOT, 1),
            e(EV_ABS, ABS_MT_TRACKING_ID, -1),
            e(EV_KEY, BTN_TOUCH, 0),
            InputEvent::syn(),
        ]
    );
}

#[test]
fn led_dalla_coda_di_stato() {
    let mut d = driver(InputConfig::keyboard());
    let on = d.buf(&InputEvent::new(EV_LED, LED_CAPSL, 1).to_bytes());
    let head = d.add(STATUSQ, &[(on, 8, false)]);
    d.service();
    assert_eq!(d.irq(), INT_VRING);
    assert_eq!(d.pop_used(STATUSQ), Some((head, 0)));
    assert_eq!(dev(&mut d).leds(), 1 << LED_CAPSL);
    let off = d.buf(&InputEvent::new(EV_LED, LED_CAPSL, 0).to_bytes());
    d.add(STATUSQ, &[(off, 8, false)]);
    d.service();
    assert_eq!(dev(&mut d).leds(), 0);
    assert_eq!(dev(&mut d).take_status().len(), 2);
}

// ---- Driver di prova ------------------------------------------------------------

/// Base della RAM finta: la stessa della macchina virt.
pub const RAM_BASE: u64 = 0x4000_0000;
const RAM_SIZE: usize = 8 << 20;

/// Come il driver raggiunge i registri del trasporto.
pub trait Transport {
    fn rd(&mut self, off: u64) -> u32;
    fn wr(&mut self, off: u64, v: u32);
    fn cfg(&mut self, off: u64, size: u8) -> u64;
    fn cfg_wr(&mut self, off: u64, size: u8, v: u64);
    fn service(&mut self, ram: &mut VecRam);
}

impl<V: VirtioDevice> Transport for VirtioMmio<V> {
    fn rd(&mut self, off: u64) -> u32 {
        self.read(off, 4) as u32
    }
    fn wr(&mut self, off: u64, v: u32) {
        self.write(off, 4, u64::from(v));
    }
    fn cfg(&mut self, off: u64, size: u8) -> u64 {
        self.read(CONFIG + off, size)
    }
    fn cfg_wr(&mut self, off: u64, size: u8, v: u64) {
        self.write(CONFIG + off, size, v);
    }
    fn service(&mut self, ram: &mut VecRam) {
        VirtioMmio::service(self, ram);
    }
}

pub struct DrvQueue {
    pub size: u16,
    pub desc: u64,
    pub avail: u64,
    pub used: u64,
    free: Vec<u16>,
    avail_idx: u16,
    last_used: u16,
    /// Descrittori (diretti) occupati da ogni catena, per testa.
    chains: HashMap<u16, Vec<u16>>,
}

pub struct Driver<T: Transport> {
    pub t: T,
    pub ram: VecRam,
    next: u64,
    pub queues: Vec<DrvQueue>,
    pub features: u64,
}

/// Buffer di una catena: (indirizzo, lunghezza, scrivibile dal dispositivo).
pub type B = (u64, u32, bool);

impl<T: Transport> Driver<T> {
    pub fn new(t: T) -> Self {
        Self { t, ram: VecRam::new(RAM_BASE, RAM_SIZE), next: RAM_BASE, queues: Vec::new(), features: 0 }
    }

    pub fn allocate(&mut self, len: u64, align: u64) -> u64 {
        let a = self.next.next_multiple_of(align);
        self.next = a + len.max(1);
        assert!(self.next <= RAM_BASE + RAM_SIZE as u64, "RAM finta esaurita");
        a
    }

    /// Buffer con il contenuto dato.
    pub fn buf(&mut self, data: &[u8]) -> u64 {
        let a = self.allocate(data.len() as u64, 8);
        self.ram.write(a, data).unwrap();
        a
    }

    pub fn mem(&self, addr: u64, len: usize) -> Vec<u8> {
        let mut v = vec![0; len];
        self.ram.read(addr, &mut v).unwrap();
        v
    }

    fn status(&mut self, bits: u32) {
        let s = self.t.rd(STATUS);
        self.t.wr(STATUS, s | bits);
    }

    /// Fino a FEATURES_OK: reset, ACKNOWLEDGE, DRIVER, feature `offerte &
    /// wanted`. Restituisce lo Status riletto.
    pub fn negotiate(&mut self, wanted: u64) -> u32 {
        assert_eq!(self.t.rd(MAGIC_VALUE), MAGIC);
        assert_eq!(self.t.rd(VERSION), 2);
        self.t.wr(STATUS, 0);
        assert_eq!(self.t.rd(STATUS), 0);
        self.status(STATUS_ACKNOWLEDGE);
        self.status(STATUS_DRIVER);
        self.t.wr(DEVICE_FEATURES_SEL, 1);
        let mut offered = u64::from(self.t.rd(DEVICE_FEATURES)) << 32;
        self.t.wr(DEVICE_FEATURES_SEL, 0);
        offered |= u64::from(self.t.rd(DEVICE_FEATURES));
        self.features = offered & wanted;
        self.t.wr(DRIVER_FEATURES_SEL, 1);
        self.t.wr(DRIVER_FEATURES, (self.features >> 32) as u32);
        self.t.wr(DRIVER_FEATURES_SEL, 0);
        self.t.wr(DRIVER_FEATURES, self.features as u32);
        self.status(STATUS_FEATURES_OK);
        self.t.rd(STATUS)
    }

    /// Negoziazione completa, code (al massimo `qsize` voci) e DRIVER_OK.
    pub fn init(&mut self, wanted: u64, qsize: u16) -> u64 {
        let st = self.negotiate(wanted);
        assert_ne!(st & STATUS_FEATURES_OK, 0, "FEATURES_OK rifiutato");
        self.queues.clear();
        for i in 0.. {
            self.t.wr(QUEUE_SEL, i);
            assert_eq!(self.t.rd(QUEUE_READY), 0);
            let max = self.t.rd(QUEUE_NUM_MAX);
            if max == 0 {
                break;
            }
            self.setup_queue((max as u16).min(qsize));
        }
        self.status(STATUS_DRIVER_OK);
        self.features
    }

    fn setup_queue(&mut self, size: u16) {
        let n = u64::from(size);
        let desc = self.allocate(16 * n, 16);
        let avail = self.allocate(6 + 2 * n, 2);
        let used = self.allocate(6 + 8 * n, 4);
        self.t.wr(QUEUE_NUM, u32::from(size));
        for (lo, a) in [(QUEUE_DESC_LOW, desc), (QUEUE_DRIVER_LOW, avail), (QUEUE_DEVICE_LOW, used)] {
            self.t.wr(lo, a as u32);
            self.t.wr(lo + 4, (a >> 32) as u32);
        }
        self.t.wr(QUEUE_READY, 1);
        assert_eq!(self.t.rd(QUEUE_READY), 1);
        self.queues.push(DrvQueue {
            size,
            desc,
            avail,
            used,
            free: (0..size).rev().collect(),
            avail_idx: 0,
            last_used: 0,
            chains: HashMap::new(),
        });
    }

    fn put_desc(&mut self, table: u64, i: u16, addr: u64, len: u32, flags: u16, next: u16) {
        let mut b = [0u8; 16];
        b[0..8].copy_from_slice(&addr.to_le_bytes());
        b[8..12].copy_from_slice(&len.to_le_bytes());
        b[12..14].copy_from_slice(&flags.to_le_bytes());
        b[14..16].copy_from_slice(&next.to_le_bytes());
        self.ram.write(table + 16 * u64::from(i), &b).unwrap();
    }

    /// Pubblica la testa nell'available ring e notifica la coda.
    fn publish(&mut self, qi: usize, head: u16) {
        let q = &mut self.queues[qi];
        let slot = u64::from(q.avail_idx % q.size);
        let (avail, idx) = (q.avail, q.avail_idx.wrapping_add(1));
        q.avail_idx = idx;
        self.ram.write_u16(avail + 4 + 2 * slot, head).unwrap();
        self.ram.write_u16(avail + 2, idx).unwrap();
        self.t.wr(QUEUE_NOTIFY, qi as u32);
    }

    /// Catena di descrittori diretti.
    pub fn add(&mut self, qi: usize, bufs: &[B]) -> u16 {
        let q = &mut self.queues[qi];
        let ids: Vec<u16> = (0..bufs.len()).map(|_| q.free.pop().expect("coda piena")).collect();
        let table = q.desc;
        for (k, &(addr, len, w)) in bufs.iter().enumerate() {
            let mut flags = if w { DESC_F_WRITE } else { 0 };
            let next = ids.get(k + 1).copied().unwrap_or(0);
            if k + 1 < bufs.len() {
                flags |= DESC_F_NEXT;
            }
            self.put_desc(table, ids[k], addr, len, flags, next);
        }
        self.queues[qi].chains.insert(ids[0], ids.clone());
        self.publish(qi, ids[0]);
        ids[0]
    }

    /// Catena in una tabella indiretta (un solo descrittore nella coda).
    pub fn add_indirect(&mut self, qi: usize, bufs: &[B]) -> u16 {
        let table = self.allocate(16 * bufs.len() as u64, 16);
        for (k, &(addr, len, w)) in bufs.iter().enumerate() {
            let mut flags = if w { DESC_F_WRITE } else { 0 };
            if k + 1 < bufs.len() {
                flags |= DESC_F_NEXT;
            }
            self.put_desc(table, k as u16, addr, len, flags, k as u16 + 1);
        }
        let q = &mut self.queues[qi];
        let head = q.free.pop().expect("coda piena");
        let desc = q.desc;
        self.put_desc(desc, head, table, 16 * bufs.len() as u32, DESC_F_INDIRECT, 0);
        self.queues[qi].chains.insert(head, vec![head]);
        self.publish(qi, head);
        head
    }

    /// Prossimo elemento dello used ring (testa, byte scritti), come
    /// `virtqueue_get_buf`; con EVENT_IDX aggiorna used_event come
    /// `virtqueue_enable_cb`.
    pub fn pop_used(&mut self, qi: usize) -> Option<(u16, u32)> {
        let event_idx = self.features & F_EVENT_IDX != 0;
        let q = &mut self.queues[qi];
        let idx = self.ram.read_u16(q.used + 2).unwrap();
        if idx == q.last_used {
            return None;
        }
        let e = q.used + 4 + 8 * u64::from(q.last_used % q.size);
        let id = self.ram.read_u32(e).unwrap() as u16;
        let len = self.ram.read_u32(e + 4).unwrap();
        q.last_used = q.last_used.wrapping_add(1);
        let ids = q.chains.remove(&id).expect("id restituito due volte");
        q.free.extend(ids);
        if event_idx {
            let at = q.avail + 4 + 2 * u64::from(q.size);
            let v = q.last_used;
            self.ram.write_u16(at, v).unwrap();
        }
        Some((id, len))
    }

    /// avail_event scritto dal dispositivo (con EVENT_IDX).
    pub fn avail_event(&self, qi: usize) -> u16 {
        let q = &self.queues[qi];
        self.ram.read_u16(q.used + 4 + 8 * u64::from(q.size)).unwrap()
    }

    pub fn set_avail_flags(&mut self, qi: usize, flags: u16) {
        let a = self.queues[qi].avail;
        self.ram.write_u16(a, flags).unwrap();
    }

    pub fn set_used_event(&mut self, qi: usize, v: u16) {
        let q = &self.queues[qi];
        let at = q.avail + 4 + 2 * u64::from(q.size);
        self.ram.write_u16(at, v).unwrap();
    }

    pub fn service(&mut self) {
        self.t.service(&mut self.ram);
    }

    /// Handler dell'interrupt: legge InterruptStatus e lo riconosce.
    pub fn irq(&mut self) -> u32 {
        let s = self.t.rd(INTERRUPT_STATUS);
        self.t.wr(INTERRUPT_ACK, s);
        s
    }
}
