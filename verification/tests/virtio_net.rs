use std::collections::HashMap;
use vetro::platform::virtio::net::{F_MAC, F_MRG_RXBUF, F_STATUS, NET_HDR_LEN, QueueNet, S_LINK_UP, VirtioNet};
use vetro::platform::virtio::queue::{DESC_F_INDIRECT, DESC_F_NEXT, DESC_F_WRITE, QueueError};
use vetro::platform::virtio::ram::{VecRam};
use vetro::platform::virtio::mmio::{VirtioMmio};
use vetro::platform::virtio::{CONFIG, CONFIG_GENERATION, DEVICE_FEATURES, DEVICE_FEATURES_SEL, DEVICE_ID, DRIVER_FEATURES, DRIVER_FEATURES_SEL, F_EVENT_IDX, ID_NET, INTERRUPT_ACK, INTERRUPT_STATUS, INT_CONFIG, INT_VRING, MAGIC, MAGIC_VALUE, QUEUE_DESC_LOW, QUEUE_DEVICE_LOW, QUEUE_DRIVER_LOW, QUEUE_NOTIFY, QUEUE_NUM, QUEUE_NUM_MAX, QUEUE_READY, QUEUE_SEL, STATUS, STATUS_ACKNOWLEDGE, STATUS_DEVICE_NEEDS_RESET, STATUS_DRIVER, STATUS_DRIVER_OK, STATUS_FEATURES_OK, VERSION, VirtioDevice};
use vetro::platform::virtio::ram::GuestRamExt;
use vetro::platform::virtio::ram::GuestRam;
use vetro::platform::bus::MmioDevice;

const RXQ: usize = 0;
const TXQ: usize = 1;


type Scheda = VirtioNet<QueueNet>;

const MAC: [u8; 6] = [0x52, 0x54, 0x00, 0x12, 0x34, 0x56];

fn driver(mrg: bool, wanted: u64) -> Driver<VirtioMmio<Scheda>> {
    let dev = VirtioNet::new(QueueNet::default(), MAC).with_mrg_rxbuf(mrg);
    let mut d = Driver::new(VirtioMmio::new(dev));
    d.init(wanted, 16);
    d
}

fn backend(d: &mut Driver<VirtioMmio<Scheda>>) -> &mut QueueNet {
    d.t.device_as_mut::<Scheda>().unwrap().backend_as_mut().unwrap()
}

fn frame(len: usize, seed: u8) -> Vec<u8> {
    (0..len).map(|i| (i as u8).wrapping_mul(3).wrapping_add(seed)).collect()
}

/// Pubblica `n` buffer di ricezione da `len` byte; restituisce gli indirizzi.
fn post_rx(d: &mut Driver<VirtioMmio<Scheda>>, n: usize, len: u32) -> Vec<u64> {
    (0..n)
        .map(|_| {
            let a = d.allocate(u64::from(len), 8);
            d.add(RXQ, &[(a, len, true)]);
            a
        })
        .collect()
}

#[test]
fn configurazione_e_feature_della_rete() {
    let mut d = driver(true, u64::MAX);
    assert_eq!(d.t.rd(DEVICE_ID), ID_NET);
    let mac: Vec<u8> = (0..6).map(|i| d.t.cfg(i, 1) as u8).collect();
    assert_eq!(mac, MAC);
    assert_eq!(d.t.cfg(6, 2), u64::from(S_LINK_UP));
    assert_eq!(d.features & (F_MAC | F_STATUS | F_MRG_RXBUF), F_MAC | F_STATUS | F_MRG_RXBUF);
    let d = driver(false, u64::MAX);
    assert_eq!(d.features & F_MRG_RXBUF, 0);
    assert_eq!(d.features & 0x3F_FFFF & !(F_MAC | F_STATUS), 0, "niente offload");
}

#[test]
fn trasmissione() {
    let mut d = driver(true, u64::MAX);
    let f = frame(60, 1);
    let h = d.buf(&[0; NET_HDR_LEN]);
    let p = d.buf(&f);
    let head = d.add(TXQ, &[(h, NET_HDR_LEN as u32, false), (p, 60, false)]);
    // Intestazione e dati nello stesso buffer, via tabella indiretta.
    let g = frame(1514, 9);
    let hp = d.buf(&[vec![0; NET_HDR_LEN], g.clone()].concat());
    let head2 = d.add_indirect(TXQ, &[(hp, 1526, false)]);
    d.service();
    assert_eq!(d.irq(), INT_VRING);
    assert_eq!(d.pop_used(TXQ), Some((head, 0)));
    assert_eq!(d.pop_used(TXQ), Some((head2, 0)));
    assert_eq!(backend(&mut d).tx, vec![f, g]);
}

#[test]
fn trasmissione_senza_intestazione_e_un_errore() {
    let mut d = driver(true, u64::MAX);
    let p = d.buf(&[0; 8]);
    d.add(TXQ, &[(p, 8, false)]);
    d.service();
    assert!(matches!(d.t.last_error(), Some(QueueError::Malformed(_))));
    assert_ne!(d.t.rd(STATUS) & STATUS_DEVICE_NEEDS_RESET, 0);

    // Descrittore enorme: rifiutato prima di leggere (e allocare) nulla.
    let mut d = driver(true, u64::MAX);
    let p = d.buf(&[0; 16]);
    d.add(TXQ, &[(p, u32::MAX, false)]);
    d.service();
    assert!(matches!(d.t.last_error(), Some(QueueError::Malformed(_))));
    assert!(backend(&mut d).tx.is_empty());
}

#[test]
fn ricezione_senza_mrg_rxbuf() {
    let mut d = driver(false, u64::MAX);
    let bufs = post_rx(&mut d, 2, 1526);
    let f = frame(100, 5);
    backend(&mut d).rx.push_back(f.clone());
    d.service();
    assert_eq!(d.irq(), INT_VRING);
    let (_, len) = d.pop_used(RXQ).unwrap();
    assert_eq!(len, 112);
    let got = d.mem(bufs[0], 112);
    let mut hdr = [0u8; NET_HDR_LEN];
    hdr[10] = 1; // num_buffers = 1
    assert_eq!(&got[..NET_HDR_LEN], &hdr);
    assert_eq!(&got[NET_HDR_LEN..], &f[..]);
    assert_eq!(d.pop_used(RXQ), None);
}

#[test]
fn ricezione_senza_buffer_lascia_i_frame_nel_backend() {
    let mut d = driver(false, u64::MAX);
    backend(&mut d).rx.push_back(frame(60, 0));
    d.service();
    assert_eq!(backend(&mut d).rx.len(), 1, "nessun buffer: il frame resta");
    post_rx(&mut d, 1, 1526);
    d.service();
    assert_eq!(backend(&mut d).rx.len(), 0);
    assert_eq!(d.pop_used(RXQ).map(|u| u.1), Some(72));
}

#[test]
fn frame_troppo_grande_senza_mrg_si_scarta() {
    let mut d = driver(false, u64::MAX);
    let bufs = post_rx(&mut d, 1, 100);
    backend(&mut d).rx.extend([frame(200, 0), frame(50, 7)]);
    d.service();
    assert_eq!(d.t.device_as::<Scheda>().unwrap().rx_dropped(), 1);
    // Il buffer è rimasto al driver e ha ricevuto il frame successivo.
    assert_eq!(d.pop_used(RXQ).map(|u| u.1), Some(62));
    assert_eq!(d.mem(bufs[0] + NET_HDR_LEN as u64, 50), frame(50, 7));
}

/// Frames that are too long take no buffer, however many there are: one service
/// drops them all and delivers what comes after them.
#[test]
fn all_long_frames_are_dropped_in_one_service() {
    let mut d = driver(false, u64::MAX);
    let bufs = post_rx(&mut d, 1, 100);
    for _ in 0..65_537 {
        backend(&mut d).rx.push_back(frame(89, 0));
    }
    backend(&mut d).rx.push_back(frame(50, 7));
    d.service();
    assert_eq!(d.t.device_as::<Scheda>().unwrap().rx_dropped(), 65_537);
    assert_eq!(d.pop_used(RXQ).map(|u| u.1), Some(62));
    assert_eq!(d.mem(bufs[0] + NET_HDR_LEN as u64, 50), frame(50, 7));
}

#[test]
fn ricezione_con_mrg_rxbuf_su_piu_buffer() {
    let mut d = driver(true, u64::MAX);
    assert_ne!(d.features & F_MRG_RXBUF, 0);
    let bufs = post_rx(&mut d, 4, 64);
    let f = frame(150, 3);
    backend(&mut d).rx.push_back(f.clone());
    d.service();
    assert_eq!(d.irq(), INT_VRING);
    let lens: Vec<u32> = (0..3).map(|_| d.pop_used(RXQ).unwrap().1).collect();
    assert_eq!(lens, [64, 64, 34]);
    assert_eq!(d.pop_used(RXQ), None, "il quarto buffer resta libero");
    let all = [d.mem(bufs[0], 64), d.mem(bufs[1], 64), d.mem(bufs[2], 34)].concat();
    assert_eq!(u16::from_le_bytes([all[10], all[11]]), 3, "num_buffers");
    assert_eq!(&all[NET_HDR_LEN..], &f[..]);
}

#[test]
fn mrg_rxbuf_aspetta_buffer_sufficienti() {
    let mut d = driver(true, u64::MAX);
    post_rx(&mut d, 1, 64);
    let f = frame(100, 1);
    backend(&mut d).rx.push_back(f.clone());
    d.service();
    assert_eq!(d.pop_used(RXQ), None);
    assert_eq!(d.irq(), 0);
    let bufs = post_rx(&mut d, 1, 64);
    d.service();
    assert_eq!(d.pop_used(RXQ).map(|u| u.1), Some(64));
    assert_eq!(d.pop_used(RXQ).map(|u| u.1), Some(48));
    assert_eq!(d.mem(bufs[0], 48), f[52..].to_vec());
}

#[test]
fn link_giu_e_su() {
    let mut d = driver(true, u64::MAX);
    post_rx(&mut d, 2, 1526);
    let gen0 = d.t.rd(CONFIG_GENERATION);
    d.t.device_as_mut::<Scheda>().unwrap().set_link_up(false);
    backend(&mut d).rx.push_back(frame(60, 0));
    d.service();
    assert_eq!(d.irq(), INT_CONFIG);
    assert_eq!(d.t.cfg(6, 2), 0);
    assert_eq!(d.t.rd(CONFIG_GENERATION), gen0.wrapping_add(1));
    assert_eq!(backend(&mut d).rx.len(), 1, "link giù: niente ricezione");
    // Con il link giù la trasmissione si scarta ma il buffer torna.
    let p = d.buf(&[0; 72]);
    d.add(TXQ, &[(p, 72, false)]);
    d.service();
    assert_eq!(d.pop_used(TXQ).map(|u| u.1), Some(0));
    assert!(backend(&mut d).tx.is_empty());
    d.t.device_as_mut::<Scheda>().unwrap().set_link_up(true);
    d.service();
    assert_eq!(d.irq(), INT_CONFIG | INT_VRING);
    assert_eq!(d.t.cfg(6, 2), u64::from(S_LINK_UP));
    assert_eq!(d.pop_used(RXQ).map(|u| u.1), Some(72));
}

// ---- Driver di prova ------------------------------------------------------------

/// Base della RAM finta: la stessa della macchina virt.
pub const RAM_BASE: u64 = 0x4000_0000;
const RAM_SIZE: usize = 8 << 20;

/// Come il driver raggiunge i registri del trasporto.
pub trait Transport {
    fn rd(&mut self, off: u64) -> u32;
    fn wr(&mut self, off: u64, v: u32);
    fn cfg(&mut self, off: u64, size: u8) -> u64;
    fn cfg_wr(&mut self, off: u64, size: u8, v: u64);
    fn service(&mut self, ram: &mut VecRam);
}

impl<V: VirtioDevice> Transport for VirtioMmio<V> {
    fn rd(&mut self, off: u64) -> u32 {
        self.read(off, 4) as u32
    }
    fn wr(&mut self, off: u64, v: u32) {
        self.write(off, 4, u64::from(v));
    }
    fn cfg(&mut self, off: u64, size: u8) -> u64 {
        self.read(CONFIG + off, size)
    }
    fn cfg_wr(&mut self, off: u64, size: u8, v: u64) {
        self.write(CONFIG + off, size, v);
    }
    fn service(&mut self, ram: &mut VecRam) {
        VirtioMmio::service(self, ram);
    }
}

pub struct DrvQueue {
    pub size: u16,
    pub desc: u64,
    pub avail: u64,
    pub used: u64,
    free: Vec<u16>,
    avail_idx: u16,
    last_used: u16,
    /// Descrittori (diretti) occupati da ogni catena, per testa.
    chains: HashMap<u16, Vec<u16>>,
}

pub struct Driver<T: Transport> {
    pub t: T,
    pub ram: VecRam,
    next: u64,
    pub queues: Vec<DrvQueue>,
    pub features: u64,
}

/// Buffer di una catena: (indirizzo, lunghezza, scrivibile dal dispositivo).
pub type B = (u64, u32, bool);

impl<T: Transport> Driver<T> {
    pub fn new(t: T) -> Self {
        Self { t, ram: VecRam::new(RAM_BASE, RAM_SIZE), next: RAM_BASE, queues: Vec::new(), features: 0 }
    }

    pub fn allocate(&mut self, len: u64, align: u64) -> u64 {
        let a = self.next.next_multiple_of(align);
        self.next = a + len.max(1);
        assert!(self.next <= RAM_BASE + RAM_SIZE as u64, "RAM finta esaurita");
        a
    }

    /// Buffer con il contenuto dato.
    pub fn buf(&mut self, data: &[u8]) -> u64 {
        let a = self.allocate(data.len() as u64, 8);
        self.ram.write(a, data).unwrap();
        a
    }

    pub fn mem(&self, addr: u64, len: usize) -> Vec<u8> {
        let mut v = vec![0; len];
        self.ram.read(addr, &mut v).unwrap();
        v
    }

    fn status(&mut self, bits: u32) {
        let s = self.t.rd(STATUS);
        self.t.wr(STATUS, s | bits);
    }

    /// Fino a FEATURES_OK: reset, ACKNOWLEDGE, DRIVER, feature `offerte &
    /// wanted`. Restituisce lo Status riletto.
    pub fn negotiate(&mut self, wanted: u64) -> u32 {
        assert_eq!(self.t.rd(MAGIC_VALUE), MAGIC);
        assert_eq!(self.t.rd(VERSION), 2);
        self.t.wr(STATUS, 0);
        assert_eq!(self.t.rd(STATUS), 0);
        self.status(STATUS_ACKNOWLEDGE);
        self.status(STATUS_DRIVER);
        self.t.wr(DEVICE_FEATURES_SEL, 1);
        let mut offered = u64::from(self.t.rd(DEVICE_FEATURES)) << 32;
        self.t.wr(DEVICE_FEATURES_SEL, 0);
        offered |= u64::from(self.t.rd(DEVICE_FEATURES));
        self.features = offered & wanted;
        self.t.wr(DRIVER_FEATURES_SEL, 1);
        self.t.wr(DRIVER_FEATURES, (self.features >> 32) as u32);
        self.t.wr(DRIVER_FEATURES_SEL, 0);
        self.t.wr(DRIVER_FEATURES, self.features as u32);
        self.status(STATUS_FEATURES_OK);
        self.t.rd(STATUS)
    }

    /// Negoziazione completa, code (al massimo `qsize` voci) e DRIVER_OK.
    pub fn init(&mut self, wanted: u64, qsize: u16) -> u64 {
        let st = self.negotiate(wanted);
        assert_ne!(st & STATUS_FEATURES_OK, 0, "FEATURES_OK rifiutato");
        self.queues.clear();
        for i in 0.. {
            self.t.wr(QUEUE_SEL, i);
            assert_eq!(self.t.rd(QUEUE_READY), 0);
            let max = self.t.rd(QUEUE_NUM_MAX);
            if max == 0 {
                break;
            }
            self.setup_queue((max as u16).min(qsize));
        }
        self.status(STATUS_DRIVER_OK);
        self.features
    }

    fn setup_queue(&mut self, size: u16) {
        let n = u64::from(size);
        let desc = self.allocate(16 * n, 16);
        let avail = self.allocate(6 + 2 * n, 2);
        let used = self.allocate(6 + 8 * n, 4);
        self.t.wr(QUEUE_NUM, u32::from(size));
        for (lo, a) in [(QUEUE_DESC_LOW, desc), (QUEUE_DRIVER_LOW, avail), (QUEUE_DEVICE_LOW, used)] {
            self.t.wr(lo, a as u32);
            self.t.wr(lo + 4, (a >> 32) as u32);
        }
        self.t.wr(QUEUE_READY, 1);
        assert_eq!(self.t.rd(QUEUE_READY), 1);
        self.queues.push(DrvQueue {
            size,
            desc,
            avail,
            used,
            free: (0..size).rev().collect(),
            avail_idx: 0,
            last_used: 0,
            chains: HashMap::new(),
        });
    }

    fn put_desc(&mut self, table: u64, i: u16, addr: u64, len: u32, flags: u16, next: u16) {
        let mut b = [0u8; 16];
        b[0..8].copy_from_slice(&addr.to_le_bytes());
        b[8..12].copy_from_slice(&len.to_le_bytes());
        b[12..14].copy_from_slice(&flags.to_le_bytes());
        b[14..16].copy_from_slice(&next.to_le_bytes());
        self.ram.write(table + 16 * u64::from(i), &b).unwrap();
    }

    /// Pubblica la testa nell'available ring e notifica la coda.
    fn publish(&mut self, qi: usize, head: u16) {
        let q = &mut self.queues[qi];
        let slot = u64::from(q.avail_idx % q.size);
        let (avail, idx) = (q.avail, q.avail_idx.wrapping_add(1));
        q.avail_idx = idx;
        self.ram.write_u16(avail + 4 + 2 * slot, head).unwrap();
        self.ram.write_u16(avail + 2, idx).unwrap();
        self.t.wr(QUEUE_NOTIFY, qi as u32);
    }

    /// Catena di descrittori diretti.
    pub fn add(&mut self, qi: usize, bufs: &[B]) -> u16 {
        let q = &mut self.queues[qi];
        let ids: Vec<u16> = (0..bufs.len()).map(|_| q.free.pop().expect("coda piena")).collect();
        let table = q.desc;
        for (k, &(addr, len, w)) in bufs.iter().enumerate() {
            let mut flags = if w { DESC_F_WRITE } else { 0 };
            let next = ids.get(k + 1).copied().unwrap_or(0);
            if k + 1 < bufs.len() {
                flags |= DESC_F_NEXT;
            }
            self.put_desc(table, ids[k], addr, len, flags, next);
        }
        self.queues[qi].chains.insert(ids[0], ids.clone());
        self.publish(qi, ids[0]);
        ids[0]
    }

    /// Catena in una tabella indiretta (un solo descrittore nella coda).
    pub fn add_indirect(&mut self, qi: usize, bufs: &[B]) -> u16 {
        let table = self.allocate(16 * bufs.len() as u64, 16);
        for (k, &(addr, len, w)) in bufs.iter().enumerate() {
            let mut flags = if w { DESC_F_WRITE } else { 0 };
            if k + 1 < bufs.len() {
                flags |= DESC_F_NEXT;
            }
            self.put_desc(table, k as u16, addr, len, flags, k as u16 + 1);
        }
        let q = &mut self.queues[qi];
        let head = q.free.pop().expect("coda piena");
        let desc = q.desc;
        self.put_desc(desc, head, table, 16 * bufs.len() as u32, DESC_F_INDIRECT, 0);
        self.queues[qi].chains.insert(head, vec![head]);
        self.publish(qi, head);
        head
    }

    /// Prossimo elemento dello used ring (testa, byte scritti), come
    /// `virtqueue_get_buf`; con EVENT_IDX aggiorna used_event come
    /// `virtqueue_enable_cb`.
    pub fn pop_used(&mut self, qi: usize) -> Option<(u16, u32)> {
        let event_idx = self.features & F_EVENT_IDX != 0;
        let q = &mut self.queues[qi];
        let idx = self.ram.read_u16(q.used + 2).unwrap();
        if idx == q.last_used {
            return None;
        }
        let e = q.used + 4 + 8 * u64::from(q.last_used % q.size);
        let id = self.ram.read_u32(e).unwrap() as u16;
        let len = self.ram.read_u32(e + 4).unwrap();
        q.last_used = q.last_used.wrapping_add(1);
        let ids = q.chains.remove(&id).expect("id restituito due volte");
        q.free.extend(ids);
        if event_idx {
            let at = q.avail + 4 + 2 * u64::from(q.size);
            let v = q.last_used;
            self.ram.write_u16(at, v).unwrap();
        }
        Some((id, len))
    }

    /// avail_event scritto dal dispositivo (con EVENT_IDX).
    pub fn avail_event(&self, qi: usize) -> u16 {
        let q = &self.queues[qi];
        self.ram.read_u16(q.used + 4 + 8 * u64::from(q.size)).unwrap()
    }

    pub fn set_avail_flags(&mut self, qi: usize, flags: u16) {
        let a = self.queues[qi].avail;
        self.ram.write_u16(a, flags).unwrap();
    }

    pub fn set_used_event(&mut self, qi: usize, v: u16) {
        let q = &self.queues[qi];
        let at = q.avail + 4 + 2 * u64::from(q.size);
        self.ram.write_u16(at, v).unwrap();
    }

    pub fn service(&mut self) {
        self.t.service(&mut self.ram);
    }

    /// Handler dell'interrupt: legge InterruptStatus e lo riconosce.
    pub fn irq(&mut self) -> u32 {
        let s = self.t.rd(INTERRUPT_STATUS);
        self.t.wr(INTERRUPT_ACK, s);
        s
    }
}
