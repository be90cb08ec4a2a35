use std::cell::RefCell;
use std::collections::HashMap;
use std::rc::Rc;
use vetro::platform::virtio::disk::{BlockBackend, BlockError, CowBackend, MemBackend};
use vetro::platform::virtio::blk::{F_BLK_SIZE, F_FLUSH, F_RO, F_SEG_MAX, F_SIZE_MAX, S_IOERR, S_OK, S_UNSUPP, T_FLUSH, T_GET_ID, T_IN, T_OUT, VirtioBlk, VirtioBlkConfig};
use vetro::platform::virtio::queue::{DESC_F_INDIRECT, DESC_F_NEXT, DESC_F_WRITE, QueueError};
use vetro::platform::virtio::ram::{VecRam};
use vetro::platform::virtio::mmio::{VirtioMmio};
use vetro::platform::virtio::{CONFIG, DEVICE_FEATURES, DEVICE_FEATURES_SEL, DEVICE_ID, DRIVER_FEATURES, DRIVER_FEATURES_SEL, F_EVENT_IDX, F_INDIRECT_DESC, F_VERSION_1, ID_BLOCK, INTERRUPT_ACK, INTERRUPT_STATUS, INT_CONFIG, INT_VRING, MAGIC, MAGIC_VALUE, QUEUE_DESC_LOW, QUEUE_DEVICE_LOW, QUEUE_DRIVER_LOW, QUEUE_NOTIFY, QUEUE_NUM, QUEUE_NUM_MAX, QUEUE_READY, QUEUE_SEL, STATUS, STATUS_ACKNOWLEDGE, STATUS_DEVICE_NEEDS_RESET, STATUS_DRIVER, STATUS_DRIVER_OK, STATUS_FEATURES_OK, VERSION, VirtioDevice};
use vetro::platform::virtio::ram::GuestRamExt;
use vetro::platform::virtio::ram::GuestRam;
use vetro::platform::bus::MmioDevice;

const ALL: u64 = u64::MAX;

fn transport<K: BlockBackend>(backend: K, cfg: VirtioBlkConfig) -> VirtioMmio<VirtioBlk<K>> {
    VirtioMmio::new(VirtioBlk::new(backend, cfg))
}

fn driver<K: BlockBackend>(backend: K, cfg: VirtioBlkConfig) -> Driver<VirtioMmio<VirtioBlk<K>>> {
    let mut d = Driver::new(transport(backend, cfg));
    d.init(ALL, 16);
    d
}

fn blk<K: BlockBackend>(d: &mut Driver<VirtioMmio<VirtioBlk<K>>>) -> &mut VirtioBlk<K> {
    d.t.device_as_mut::<VirtioBlk<K>>().unwrap()
}

fn hdr(kind: u32, sector: u64) -> [u8; 16] {
    let mut h = [0u8; 16];
    h[0..4].copy_from_slice(&kind.to_le_bytes());
    h[8..16].copy_from_slice(&sector.to_le_bytes());
    h
}

/// Pubblica una richiesta: intestazione, dati in uscita, `in_len` byte di
/// dati in entrata e il byte di stato, ognuno nel suo descrittore.
/// Restituisce gli indirizzi dei dati in entrata e dello stato.
fn submit<K: BlockBackend>(
    d: &mut Driver<VirtioMmio<VirtioBlk<K>>>,
    kind: u32,
    sector: u64,
    out: &[u8],
    in_len: u32,
    ind: bool,
) -> (u64, u64) {
    let h = d.buf(&hdr(kind, sector));
    let mut bufs: Vec<B> = vec![(h, 16, false)];
    if !out.is_empty() {
        bufs.push((d.buf(out), out.len() as u32, false));
    }
    let data_in = d.allocate(u64::from(in_len), 8);
    if in_len > 0 {
        bufs.push((data_in, in_len, true));
    }
    let status = d.buf(&[0xFF]);
    bufs.push((status, 1, true));
    if ind {
        d.add_indirect(0, &bufs);
    } else {
        d.add(0, &bufs);
    }
    (data_in, status)
}

/// Richiesta completa: (stato, lunghezza nello used ring, dati letti).
fn request<K: BlockBackend>(
    d: &mut Driver<VirtioMmio<VirtioBlk<K>>>,
    kind: u32,
    sector: u64,
    out: &[u8],
    in_len: u32,
) -> (u8, u32, Vec<u8>) {
    let (data_in, status) = submit(d, kind, sector, out, in_len, false);
    d.service();
    assert_eq!(d.irq() & INT_VRING, INT_VRING);
    let (_, len) = d.pop_used(0).expect("richiesta non completata");
    (d.mem(status, 1)[0], len, d.mem(data_in, in_len as usize))
}

#[test]
fn configurazione_e_feature() {
    let mut d = driver(MemBackend::new(1 << 20), VirtioBlkConfig::default());
    assert_eq!(d.t.cfg(0, 4) | d.t.cfg(4, 4) << 32, 2048, "capacity");
    assert_eq!(d.t.cfg(0, 8), 2048, "capacity a 64 bit");
    assert_eq!(d.t.cfg(8, 4), 1 << 20, "size_max");
    assert_eq!(d.t.cfg(12, 4), 254, "seg_max");
    assert_eq!(d.t.cfg(20, 4), 512, "blk_size");
    assert_eq!(d.t.cfg(34, 2), 1, "num_queues");
    assert_eq!(d.t.cfg(0x40, 4), 0);
    let want = F_SIZE_MAX | F_SEG_MAX | F_BLK_SIZE | F_FLUSH | F_VERSION_1 | F_INDIRECT_DESC | F_EVENT_IDX;
    assert_eq!(d.features, want);
    assert_eq!(d.t.rd(DEVICE_ID), ID_BLOCK);
    d.t.wr(QUEUE_SEL, 0);
    assert_eq!(d.t.rd(QUEUE_NUM_MAX), 256);
    let d = driver(MemBackend::new(4096).read_only(), VirtioBlkConfig::default());
    assert_ne!(d.features & F_RO, 0);
    let d = driver(MemBackend::new(4096), VirtioBlkConfig { read_only: true, ..Default::default() });
    assert_ne!(d.features & F_RO, 0);
}

#[test]
fn scrittura_e_lettura_dirette_e_indirette() {
    let mut d = driver(MemBackend::new(1 << 20), VirtioBlkConfig::default());
    let data: Vec<u8> = (0..1024).map(|i| (i * 7) as u8).collect();
    let (st, len, _) = request(&mut d, T_OUT, 3, &data, 0);
    assert_eq!((st, len), (S_OK, 1));
    let mut disk = vec![0u8; 1024];
    blk(&mut d).backend_mut().read_sectors(3, &mut disk).unwrap();
    assert_eq!(disk, data);

    // Lettura con tabella indiretta e dati divisi in due descrittori.
    let h = d.buf(&hdr(T_IN, 3));
    let (a, b) = (d.allocate(600, 8), d.allocate(424, 8));
    let st = d.buf(&[0xFF]);
    let head = d.add_indirect(0, &[(h, 16, false), (a, 600, true), (b, 424, true), (st, 1, true)]);
    d.service();
    assert_eq!(d.irq(), INT_VRING);
    assert_eq!(d.pop_used(0), Some((head, 1025)));
    assert_eq!(d.mem(st, 1), [S_OK]);
    assert_eq!([d.mem(a, 600), d.mem(b, 424)].concat(), data);

    // Intestazione divisa in due descrittori, stato in coda ai dati.
    let h = d.buf(&hdr(T_IN, 4));
    let buf = d.allocate(513, 8);
    let head = d.add(0, &[(h, 10, false), (h + 10, 6, false), (buf, 513, true)]);
    d.service();
    assert_eq!(d.pop_used(0), Some((head, 513)));
    assert_eq!(d.mem(buf, 513), [&data[512..], &[S_OK]].concat());
}

#[test]
fn piu_richieste_in_un_servizio() {
    let mut d = Driver::new(transport(MemBackend::new(1 << 16), VirtioBlkConfig::default()));
    d.init(ALL, 32);
    let mut stati = Vec::new();
    for s in 0..10u64 {
        stati.push(submit(&mut d, T_OUT, s, &[s as u8; 512], 0, s % 2 == 0).1);
    }
    d.service();
    assert_eq!(d.irq(), INT_VRING);
    for _ in 0..10 {
        assert_eq!(d.pop_used(0).map(|u| u.1), Some(1));
    }
    assert_eq!(d.pop_used(0), None);
    for (s, st) in stati.into_iter().enumerate() {
        assert_eq!(d.mem(st, 1), [S_OK]);
        let mut b = [0u8; 512];
        blk(&mut d).backend_mut().read_sectors(s as u64, &mut b).unwrap();
        assert_eq!(b, [s as u8; 512]);
    }
}

#[test]
fn richiesta_piu_grande_di_un_pezzo() {
    let mut d = driver(MemBackend::new(1 << 20), VirtioBlkConfig::default());
    let data: Vec<u8> = (0..200 * 1024).map(|i| (i % 251) as u8).collect();
    assert_eq!(request(&mut d, T_OUT, 8, &data, 0).0, S_OK);
    let (st, len, back) = request(&mut d, T_IN, 8, &[], data.len() as u32);
    assert_eq!((st, len), (S_OK, data.len() as u32 + 1));
    assert_eq!(back, data);
}

#[test]
fn get_id_flush_e_tipo_sconosciuto() {
    let flushes = Rc::new(RefCell::new(0));
    let cfg = VirtioBlkConfig { serial: b"disco-di-prova".to_vec(), ..Default::default() };
    let mut d = driver(Contaflush(flushes.clone(), MemBackend::new(4096)), cfg);
    let (st, len, id) = request(&mut d, T_GET_ID, 0, &[], 20);
    assert_eq!((st, len), (S_OK, 21));
    assert_eq!(&id, b"disco-di-prova\0\0\0\0\0\0");
    // Buffer più corto di 20 byte: si tronca.
    let (st, len, id) = request(&mut d, T_GET_ID, 0, &[], 5);
    assert_eq!((st, len, id.as_slice()), (S_OK, 6, &b"disco"[..]));
    assert_eq!(request(&mut d, T_FLUSH, 0, &[], 0).0, S_OK);
    assert_eq!(*flushes.borrow(), 1);
    let (st, len, _) = request(&mut d, 11, 0, &[], 0);
    assert_eq!((st, len), (S_UNSUPP, 1));
}

#[test]
fn errori_di_io() {
    let mut d = driver(MemBackend::new(4096), VirtioBlkConfig::default());
    assert_eq!(request(&mut d, T_IN, 7, &[], 1024).0, S_IOERR, "oltre la capacità");
    assert_eq!(request(&mut d, T_IN, u64::MAX, &[], 512).0, S_IOERR, "overflow del settore");
    assert_eq!(request(&mut d, T_IN, 0, &[], 100).0, S_IOERR, "non multiplo di 512");
    assert_eq!(request(&mut d, T_OUT, 0, &[1; 300], 0).0, S_IOERR);
    let (st, len, _) = request(&mut d, T_IN, 7, &[], 512);
    assert_eq!((st, len), (S_OK, 513), "ultimo settore");
    let mut d = driver(MemBackend::new(4096), VirtioBlkConfig { read_only: true, ..Default::default() });
    assert_eq!(request(&mut d, T_OUT, 0, &[1; 512], 0).0, S_IOERR, "sola lettura");
    assert_eq!(request(&mut d, T_IN, 0, &[], 512).0, S_OK);
}

#[test]
fn richiesta_malformata_porta_a_needs_reset() {
    let mut d = driver(MemBackend::new(4096), VirtioBlkConfig::default());
    let h = d.buf(&[0; 8]);
    d.add(0, &[(h, 8, false)]);
    d.service();
    assert_ne!(d.t.rd(STATUS) & STATUS_DEVICE_NEEDS_RESET, 0);
    assert_eq!(d.irq(), INT_CONFIG);
    assert!(matches!(d.t.last_error(), Some(QueueError::Malformed(_))));
    // Fermo fino al reset.
    submit(&mut d, T_IN, 0, &[], 512, false);
    d.service();
    assert_eq!(d.irq(), 0);
    // Il driver resetta e riparte.
    d.init(ALL, 16);
    assert_eq!(d.t.rd(STATUS) & STATUS_DEVICE_NEEDS_RESET, 0);
    assert_eq!(d.t.last_error(), None);
    assert_eq!(request(&mut d, T_IN, 0, &[], 512).0, S_OK);

    // Senza byte di stato.
    let h = d.buf(&hdr(T_IN, 0));
    d.add(0, &[(h, 16, false)]);
    d.service();
    assert!(matches!(d.t.last_error(), Some(QueueError::Malformed(_))));
}

#[test]
fn indirect_non_negoziato_e_un_errore() {
    let mut d = Driver::new(transport(MemBackend::new(4096), Default::default()));
    let f = d.init(ALL & !F_INDIRECT_DESC, 16);
    assert_eq!(f & F_INDIRECT_DESC, 0);
    submit(&mut d, T_IN, 0, &[], 512, true);
    d.service();
    assert_eq!(d.t.last_error(), Some(QueueError::IndirectNotNegotiated));
    assert_ne!(d.t.rd(STATUS) & STATUS_DEVICE_NEEDS_RESET, 0);
}

#[test]
fn event_idx_e_notifiche() {
    let mut d = driver(MemBackend::new(4096), VirtioBlkConfig::default());
    assert_ne!(d.features & F_EVENT_IDX, 0);
    // Il dispositivo chiede la notifica per il prossimo indice.
    submit(&mut d, T_IN, 0, &[], 512, false);
    d.service();
    assert_eq!(d.avail_event(0), 1);
    assert_eq!(d.irq(), INT_VRING);
    d.pop_used(0).unwrap(); // used_event = 1
    // Il driver sposta used_event avanti: due richieste senza interrupt.
    d.set_used_event(0, 3);
    for _ in 0..2 {
        submit(&mut d, T_IN, 0, &[], 512, false);
        d.service();
        assert_eq!(d.irq(), 0);
    }
    submit(&mut d, T_IN, 0, &[], 512, false);
    d.service();
    assert_eq!(d.irq(), INT_VRING, "used.idx supera used_event");
    assert_eq!(d.avail_event(0), 4);
}

#[test]
fn no_interrupt_senza_event_idx() {
    let t = transport(MemBackend::new(4096), Default::default()).without_features(F_EVENT_IDX);
    let mut d = Driver::new(t);
    assert_eq!(d.init(ALL, 16) & F_EVENT_IDX, 0);
    d.set_avail_flags(0, 1);
    submit(&mut d, T_IN, 0, &[], 512, false);
    d.service();
    assert_eq!(d.irq(), 0);
    assert!(d.pop_used(0).is_some(), "il buffer torna comunque");
    d.set_avail_flags(0, 0);
    submit(&mut d, T_IN, 0, &[], 512, false);
    d.service();
    assert_eq!(d.irq(), INT_VRING);
}

#[test]
fn niente_lavoro_prima_di_driver_ok() {
    let mut d = Driver::new(transport(MemBackend::new(4096), Default::default()));
    d.init(ALL, 16);
    let s = d.t.rd(STATUS);
    d.t.wr(STATUS, s & !STATUS_DRIVER_OK);
    submit(&mut d, T_IN, 0, &[], 512, false);
    d.service();
    assert_eq!(d.pop_used(0), None);
    d.t.wr(STATUS, s);
    d.service();
    assert!(d.pop_used(0).is_some());
}

struct Contaflush(Rc<RefCell<u32>>, MemBackend);

impl BlockBackend for Contaflush {
    type Model = ();
    fn model(&self) {}
    fn steady(_m: (), _sector: u64) {}
    fn read_only(&self) -> bool {
        false
    }
    fn size(&self) -> u64 {
        self.1.size()
    }
    fn read_sectors(&mut self, s: u64, b: &mut [u8]) -> Result<(), BlockError> {
        self.1.read_sectors(s, b)
    }
    fn write_sectors(&mut self, s: u64, b: &[u8]) -> Result<(), BlockError> {
        self.1.write_sectors(s, b)
    }
    fn flush(&mut self) -> Result<(), BlockError> {
        *self.0.borrow_mut() += 1;
        Ok(())
    }
}

struct Illeggibile;

impl BlockBackend for Illeggibile {
    type Model = ();
    fn model(&self) {}
    fn steady(_m: (), _sector: u64) {}
    fn read_only(&self) -> bool {
        false
    }
    fn size(&self) -> u64 {
        8192
    }
    fn read_sectors(&mut self, _: u64, _: &mut [u8]) -> Result<(), BlockError> {
        Err(BlockError::Io)
    }
    fn write_sectors(&mut self, _: u64, _: &[u8]) -> Result<(), BlockError> {
        Err(BlockError::ReadOnly)
    }
    fn flush(&mut self) -> Result<(), BlockError> {
        Ok(())
    }
}

/// A disk whose sectors from the 128th on cannot be read.
struct Half;

impl BlockBackend for Half {
    type Model = ();
    fn model(&self) {}
    fn steady(_m: (), _sector: u64) {}
    fn read_only(&self) -> bool {
        false
    }
    fn size(&self) -> u64 {
        1 << 20
    }
    fn read_sectors(&mut self, s: u64, b: &mut [u8]) -> Result<(), BlockError> {
        if s >= 128 {
            return Err(BlockError::Io);
        }
        b.fill(0x5A);
        Ok(())
    }
    fn write_sectors(&mut self, _: u64, _: &[u8]) -> Result<(), BlockError> {
        Err(BlockError::Io)
    }
    fn flush(&mut self) -> Result<(), BlockError> {
        Ok(())
    }
}

#[test]
fn failed_read_counts_what_it_wrote() {
    let mut d = driver(Half, VirtioBlkConfig::default());
    let (st, len, data) = request(&mut d, T_IN, 0, &[], 66_048);
    assert_eq!((st, len), (S_IOERR, 65_537), "the first piece and the status");
    assert!(data[..65_536].iter().all(|&b| b == 0x5A));
    let (st, len, _) = request(&mut d, T_IN, 128, &[], 512);
    assert_eq!((st, len), (S_IOERR, 1));
    let (st, len, _) = request(&mut d, T_OUT, 0, &[1; 512], 0);
    assert_eq!((st, len), (S_IOERR, 1));
}

/// Backend che non ha i dati finché non si apre il rubinetto.
struct Lento {
    pronto: Rc<RefCell<bool>>,
    disco: MemBackend,
}

impl BlockBackend for Lento {
    type Model = ();
    fn model(&self) {}
    fn steady(_m: (), _sector: u64) {}
    fn read_only(&self) -> bool {
        false
    }
    fn size(&self) -> u64 {
        self.disco.size()
    }
    fn read_sectors(&mut self, s: u64, b: &mut [u8]) -> Result<(), BlockError> {
        if !*self.pronto.borrow() {
            return Err(BlockError::NotReady);
        }
        self.disco.read_sectors(s, b)
    }
    fn write_sectors(&mut self, s: u64, b: &[u8]) -> Result<(), BlockError> {
        self.disco.write_sectors(s, b)
    }
    fn flush(&mut self) -> Result<(), BlockError> {
        Ok(())
    }
}

#[test]
fn backend_non_pronto_sospende_la_richiesta() {
    let pronto = Rc::new(RefCell::new(false));
    let disco = MemBackend::from_vec(vec![0xAB; 1024]);
    let mut d = driver(Lento { pronto: pronto.clone(), disco }, VirtioBlkConfig::default());
    let (a, _) = submit(&mut d, T_IN, 1, &[], 512, false);
    let (_, st2) = submit(&mut d, T_OUT, 0, &[1; 512], 0, false);
    d.service();
    assert_eq!(d.pop_used(0), None);
    assert_eq!(d.irq(), 0);
    assert!(blk(&mut d).has_pending());
    d.service();
    assert_eq!(d.pop_used(0), None, "la seconda richiesta aspetta la prima");
    *pronto.borrow_mut() = true;
    d.service();
    assert_eq!(d.irq(), INT_VRING);
    assert_eq!(d.pop_used(0).map(|u| u.1), Some(513));
    assert_eq!(d.pop_used(0).map(|u| u.1), Some(1));
    assert_eq!(d.mem(a, 512), vec![0xAB; 512]);
    assert_eq!(d.mem(st2, 1), [S_OK]);
    assert!(!blk(&mut d).has_pending());
}

#[test]
fn reset_dimentica_la_richiesta_sospesa() {
    let pronto = Rc::new(RefCell::new(false));
    let mut d = driver(Lento { pronto: pronto.clone(), disco: MemBackend::new(1024) }, Default::default());
    submit(&mut d, T_IN, 0, &[], 512, false);
    d.service();
    assert!(blk(&mut d).has_pending());
    d.t.wr(STATUS, 0);
    assert!(!blk(&mut d).has_pending());
}

#[test]
fn mem_backend_limiti() {
    let mut m = MemBackend::from_vec(vec![1; 700]);
    assert_eq!(m.size(), 1024);
    assert_eq!(m.read_sectors(2, &mut [0; 512]), Err(BlockError::OutOfRange));
    assert_eq!(m.read_sectors(1, &mut [0; 100]), Err(BlockError::OutOfRange));
    let mut s = [0; 512];
    m.read_sectors(1, &mut s).unwrap();
    assert_eq!(&s[..188], &[1; 188][..]);
    assert_eq!(&s[188..], &[0; 324][..]);
    let mut ro = MemBackend::new(512).read_only();
    assert_eq!(ro.write_sectors(0, &[0; 512]), Err(BlockError::ReadOnly));
}

#[test]
fn copy_on_write_sopra_la_base() {
    // Base di 3 cluster e mezzo, in sola lettura; ogni settore vale il suo numero.
    let base: Vec<u8> = (0..14336u32).map(|i| (i / 512) as u8).collect();
    let mut cow = CowBackend::new(MemBackend::from_vec(base.clone()).read_only());
    assert_eq!(cow.size(), 14336);
    assert!(!BlockBackend::read_only(&cow));
    // Scrittura parziale a cavallo di due cluster (settori 7 e 8).
    cow.write_sectors(7, &[0xEE; 1024]).unwrap();
    assert_eq!(cow.dirty_clusters(), 2);
    let mut all = vec![0u8; 14336];
    cow.read_sectors(0, &mut all).unwrap();
    let mut expect = base.clone();
    expect[7 * 512..9 * 512].fill(0xEE);
    assert_eq!(all, expect);
    assert_eq!(cow.base().data(), &base[..], "la base non cambia");
    // Ultimo cluster corto (settori 24..28) scritto in parte.
    cow.write_sectors(27, &[0x11; 512]).unwrap();
    cow.read_sectors(24, &mut all[..2048]).unwrap();
    assert_eq!(&all[..1536], &base[24 * 512..27 * 512]);
    assert_eq!(&all[1536..2048], &[0x11; 512][..]);
    assert_eq!(cow.write_sectors(28, &[0; 512]), Err(BlockError::OutOfRange));

    // Un cluster scritto per intero non legge la base.
    let mut cow = CowBackend::new(Illeggibile);
    cow.write_sectors(8, &[5; 4096]).unwrap();
    assert_eq!(cow.write_sectors(0, &[5; 512]), Err(BlockError::Io));
    let mut b = [0; 512];
    cow.read_sectors(15, &mut b).unwrap();
    assert_eq!(b, [5; 512]);
}

#[test]
fn disco_cow_dietro_virtio_blk() {
    let base = MemBackend::from_vec(vec![0x5A; 8192]).read_only();
    let mut d = driver(CowBackend::new(base), VirtioBlkConfig::default());
    assert_eq!(d.features & F_RO, 0);
    assert_eq!(request(&mut d, T_OUT, 1, &[0xC3; 512], 0).0, S_OK);
    let (st, _, data) = request(&mut d, T_IN, 0, &[], 1536);
    assert_eq!(st, S_OK);
    assert_eq!(&data[..512], &[0x5A; 512][..]);
    assert_eq!(&data[512..1024], &[0xC3; 512][..]);
    assert_eq!(&data[1024..], &[0x5A; 512][..]);
}

// ---- Driver di prova ------------------------------------------------------------

/// Base della RAM finta: la stessa della macchina virt.
pub const RAM_BASE: u64 = 0x4000_0000;
const RAM_SIZE: usize = 8 << 20;

/// Come il driver raggiunge i registri del trasporto.
pub trait Transport {
    fn rd(&mut self, off: u64) -> u32;
    fn wr(&mut self, off: u64, v: u32);
    fn cfg(&mut self, off: u64, size: u8) -> u64;
    fn cfg_wr(&mut self, off: u64, size: u8, v: u64);
    fn service(&mut self, ram: &mut VecRam);
}

impl<V: VirtioDevice> Transport for VirtioMmio<V> {
    fn rd(&mut self, off: u64) -> u32 {
        self.read(off, 4) as u32
    }
    fn wr(&mut self, off: u64, v: u32) {
        self.write(off, 4, u64::from(v));
    }
    fn cfg(&mut self, off: u64, size: u8) -> u64 {
        self.read(CONFIG + off, size)
    }
    fn cfg_wr(&mut self, off: u64, size: u8, v: u64) {
        self.write(CONFIG + off, size, v);
    }
    fn service(&mut self, ram: &mut VecRam) {
        VirtioMmio::service(self, ram);
    }
}

pub struct DrvQueue {
    pub size: u16,
    pub desc: u64,
    pub avail: u64,
    pub used: u64,
    free: Vec<u16>,
    avail_idx: u16,
    last_used: u16,
    /// Descrittori (diretti) occupati da ogni catena, per testa.
    chains: HashMap<u16, Vec<u16>>,
}

pub struct Driver<T: Transport> {
    pub t: T,
    pub ram: VecRam,
    next: u64,
    pub queues: Vec<DrvQueue>,
    pub features: u64,
}

/// Buffer di una catena: (indirizzo, lunghezza, scrivibile dal dispositivo).
pub type B = (u64, u32, bool);

impl<T: Transport> Driver<T> {
    pub fn new(t: T) -> Self {
        Self { t, ram: VecRam::new(RAM_BASE, RAM_SIZE), next: RAM_BASE, queues: Vec::new(), features: 0 }
    }

    pub fn allocate(&mut self, len: u64, align: u64) -> u64 {
        let a = self.next.next_multiple_of(align);
        self.next = a + len.max(1);
        assert!(self.next <= RAM_BASE + RAM_SIZE as u64, "RAM finta esaurita");
        a
    }

    /// Buffer con il contenuto dato.
    pub fn buf(&mut self, data: &[u8]) -> u64 {
        let a = self.allocate(data.len() as u64, 8);
        self.ram.write(a, data).unwrap();
        a
    }

    pub fn mem(&self, addr: u64, len: usize) -> Vec<u8> {
        let mut v = vec![0; len];
        self.ram.read(addr, &mut v).unwrap();
        v
    }

    fn status(&mut self, bits: u32) {
        let s = self.t.rd(STATUS);
        self.t.wr(STATUS, s | bits);
    }

    /// Fino a FEATURES_OK: reset, ACKNOWLEDGE, DRIVER, feature `offerte &
    /// wanted`. Restituisce lo Status riletto.
    pub fn negotiate(&mut self, wanted: u64) -> u32 {
        assert_eq!(self.t.rd(MAGIC_VALUE), MAGIC);
        assert_eq!(self.t.rd(VERSION), 2);
        self.t.wr(STATUS, 0);
        assert_eq!(self.t.rd(STATUS), 0);
        self.status(STATUS_ACKNOWLEDGE);
        self.status(STATUS_DRIVER);
        self.t.wr(DEVICE_FEATURES_SEL, 1);
        let mut offered = u64::from(self.t.rd(DEVICE_FEATURES)) << 32;
        self.t.wr(DEVICE_FEATURES_SEL, 0);
        offered |= u64::from(self.t.rd(DEVICE_FEATURES));
        self.features = offered & wanted;
        self.t.wr(DRIVER_FEATURES_SEL, 1);
        self.t.wr(DRIVER_FEATURES, (self.features >> 32) as u32);
        self.t.wr(DRIVER_FEATURES_SEL, 0);
        self.t.wr(DRIVER_FEATURES, self.features as u32);
        self.status(STATUS_FEATURES_OK);
        self.t.rd(STATUS)
    }

    /// Negoziazione completa, code (al massimo `qsize` voci) e DRIVER_OK.
    pub fn init(&mut self, wanted: u64, qsize: u16) -> u64 {
        let st = self.negotiate(wanted);
        assert_ne!(st & STATUS_FEATURES_OK, 0, "FEATURES_OK rifiutato");
        self.queues.clear();
        for i in 0.. {
            self.t.wr(QUEUE_SEL, i);
            assert_eq!(self.t.rd(QUEUE_READY), 0);
            let max = self.t.rd(QUEUE_NUM_MAX);
            if max == 0 {
                break;
            }
            self.setup_queue((max as u16).min(qsize));
        }
        self.status(STATUS_DRIVER_OK);
        self.features
    }

    fn setup_queue(&mut self, size: u16) {
        let n = u64::from(size);
        let desc = self.allocate(16 * n, 16);
        let avail = self.allocate(6 + 2 * n, 2);
        let used = self.allocate(6 + 8 * n, 4);
        self.t.wr(QUEUE_NUM, u32::from(size));
        for (lo, a) in [(QUEUE_DESC_LOW, desc), (QUEUE_DRIVER_LOW, avail), (QUEUE_DEVICE_LOW, used)] {
            self.t.wr(lo, a as u32);
            self.t.wr(lo + 4, (a >> 32) as u32);
        }
        self.t.wr(QUEUE_READY, 1);
        assert_eq!(self.t.rd(QUEUE_READY), 1);
        self.queues.push(DrvQueue {
            size,
            desc,
            avail,
            used,
            free: (0..size).rev().collect(),
            avail_idx: 0,
            last_used: 0,
            chains: HashMap::new(),
        });
    }

    fn put_desc(&mut self, table: u64, i: u16, addr: u64, len: u32, flags: u16, next: u16) {
        let mut b = [0u8; 16];
        b[0..8].copy_from_slice(&addr.to_le_bytes());
        b[8..12].copy_from_slice(&len.to_le_bytes());
        b[12..14].copy_from_slice(&flags.to_le_bytes());
        b[14..16].copy_from_slice(&next.to_le_bytes());
        self.ram.write(table + 16 * u64::from(i), &b).unwrap();
    }

    /// Pubblica la testa nell'available ring e notifica la coda.
    fn publish(&mut self, qi: usize, head: u16) {
        let q = &mut self.queues[qi];
        let slot = u64::from(q.avail_idx % q.size);
        let (avail, idx) = (q.avail, q.avail_idx.wrapping_add(1));
        q.avail_idx = idx;
        self.ram.write_u16(avail + 4 + 2 * slot, head).unwrap();
        self.ram.write_u16(avail + 2, idx).unwrap();
        self.t.wr(QUEUE_NOTIFY, qi as u32);
    }

    /// Catena di descrittori diretti.
    pub fn add(&mut self, qi: usize, bufs: &[B]) -> u16 {
        let q = &mut self.queues[qi];
        let ids: Vec<u16> = (0..bufs.len()).map(|_| q.free.pop().expect("coda piena")).collect();
        let table = q.desc;
        for (k, &(addr, len, w)) in bufs.iter().enumerate() {
            let mut flags = if w { DESC_F_WRITE } else { 0 };
            let next = ids.get(k + 1).copied().unwrap_or(0);
            if k + 1 < bufs.len() {
                flags |= DESC_F_NEXT;
            }
            self.put_desc(table, ids[k], addr, len, flags, next);
        }
        self.queues[qi].chains.insert(ids[0], ids.clone());
        self.publish(qi, ids[0]);
        ids[0]
    }

    /// Catena in una tabella indiretta (un solo descrittore nella coda).
    pub fn add_indirect(&mut self, qi: usize, bufs: &[B]) -> u16 {
        let table = self.allocate(16 * bufs.len() as u64, 16);
        for (k, &(addr, len, w)) in bufs.iter().enumerate() {
            let mut flags = if w { DESC_F_WRITE } else { 0 };
            if k + 1 < bufs.len() {
                flags |= DESC_F_NEXT;
            }
            self.put_desc(table, k as u16, addr, len, flags, k as u16 + 1);
        }
        let q = &mut self.queues[qi];
        let head = q.free.pop().expect("coda piena");
        let desc = q.desc;
        self.put_desc(desc, head, table, 16 * bufs.len() as u32, DESC_F_INDIRECT, 0);
        self.queues[qi].chains.insert(head, vec![head]);
        self.publish(qi, head);
        head
    }

    /// Prossimo elemento dello used ring (testa, byte scritti), come
    /// `virtqueue_get_buf`; con EVENT_IDX aggiorna used_event come
    /// `virtqueue_enable_cb`.
    pub fn pop_used(&mut self, qi: usize) -> Option<(u16, u32)> {
        let event_idx = self.features & F_EVENT_IDX != 0;
        let q = &mut self.queues[qi];
        let idx = self.ram.read_u16(q.used + 2).unwrap();
        if idx == q.last_used {
            return None;
        }
        let e = q.used + 4 + 8 * u64::from(q.last_used % q.size);
        let id = self.ram.read_u32(e).unwrap() as u16;
        let len = self.ram.read_u32(e + 4).unwrap();
        q.last_used = q.last_used.wrapping_add(1);
        let ids = q.chains.remove(&id).expect("id restituito due volte");
        q.free.extend(ids);
        if event_idx {
            let at = q.avail + 4 + 2 * u64::from(q.size);
            let v = q.last_used;
            self.ram.write_u16(at, v).unwrap();
        }
        Some((id, len))
    }

    /// avail_event scritto dal dispositivo (con EVENT_IDX).
    pub fn avail_event(&self, qi: usize) -> u16 {
        let q = &self.queues[qi];
        self.ram.read_u16(q.used + 4 + 8 * u64::from(q.size)).unwrap()
    }

    pub fn set_avail_flags(&mut self, qi: usize, flags: u16) {
        let a = self.queues[qi].avail;
        self.ram.write_u16(a, flags).unwrap();
    }

    pub fn set_used_event(&mut self, qi: usize, v: u16) {
        let q = &self.queues[qi];
        let at = q.avail + 4 + 2 * u64::from(q.size);
        self.ram.write_u16(at, v).unwrap();
    }

    pub fn service(&mut self) {
        self.t.service(&mut self.ram);
    }

    /// Handler dell'interrupt: legge InterruptStatus e lo riconosce.
    pub fn irq(&mut self) -> u32 {
        let s = self.t.rd(INTERRUPT_STATUS);
        self.t.wr(INTERRUPT_ACK, s);
        s
    }
}
