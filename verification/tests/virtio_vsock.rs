use std::collections::HashMap;
use vetro::platform::virtio::vsock::{EVENT_TRANSPORT_RESET, FIRST_HOST_PORT, F_STREAM, HDR_LEN, HOST_BUF_ALLOC, HOST_CID, Hdr, OP_CREDIT_REQUEST, OP_CREDIT_UPDATE, OP_REQUEST, OP_RESPONSE, OP_RST, OP_RW, OP_SHUTDOWN, SHUTDOWN_RCV, SHUTDOWN_SEND, TYPE_STREAM, VirtioVsock, VsockConn, VsockError, VsockState};
use vetro::platform::virtio::queue::{DESC_F_INDIRECT, DESC_F_NEXT, DESC_F_WRITE};
use vetro::platform::virtio::ram::{VecRam};
use vetro::platform::virtio::mmio::{VirtioMmio};
use vetro::platform::virtio::{CONFIG, DEVICE_FEATURES, DEVICE_FEATURES_SEL, DEVICE_ID, DRIVER_FEATURES, DRIVER_FEATURES_SEL, F_EVENT_IDX, ID_VSOCK, INTERRUPT_ACK, INTERRUPT_STATUS, MAGIC, MAGIC_VALUE, QUEUE_DESC_LOW, QUEUE_DEVICE_LOW, QUEUE_DRIVER_LOW, QUEUE_NOTIFY, QUEUE_NUM, QUEUE_NUM_MAX, QUEUE_READY, QUEUE_SEL, STATUS, STATUS_ACKNOWLEDGE, STATUS_DRIVER, STATUS_DRIVER_OK, STATUS_FEATURES_OK, VERSION, VirtioDevice};
use vetro::platform::virtio::ram::GuestRamExt;
use vetro::platform::virtio::ram::GuestRam;
use vetro::platform::bus::MmioDevice;

const RXQ: usize = 0;
const TXQ: usize = 1;
const EVTQ: usize = 2;


const CID: u64 = 7;

fn driver() -> Driver<VirtioMmio<VirtioVsock>> {
    let mut d = Driver::new(VirtioMmio::new(VirtioVsock::new(CID)));
    d.init(u64::MAX, 32);
    d
}

fn vs(d: &mut Driver<VirtioMmio<VirtioVsock>>) -> &mut VirtioVsock {
    d.t.device_as_mut::<VirtioVsock>().unwrap()
}

/// Intestazione di un pacchetto del guest verso l'host.
fn g(src_port: u32, dst_port: u32, op: u16) -> Hdr {
    Hdr {
        src_cid: CID,
        dst_cid: HOST_CID,
        src_port,
        dst_port,
        ty: TYPE_STREAM,
        op,
        buf_alloc: 1 << 20,
        ..Hdr::default()
    }
}

/// Il guest manda un pacchetto: intestazione e dati in due descrittori,
/// come Linux.
fn send(d: &mut Driver<VirtioMmio<VirtioVsock>>, mut h: Hdr, data: &[u8]) {
    h.len = data.len() as u32;
    let a = d.buf(&h.to_bytes());
    if data.is_empty() {
        d.add(TXQ, &[(a, HDR_LEN as u32, false)]);
    } else {
        let b = d.buf(data);
        d.add(TXQ, &[(a, HDR_LEN as u32, false), (b, data.len() as u32, false)]);
    }
    d.service();
    while d.pop_used(TXQ).is_some() {}
}

/// Buffer di ricezione come quelli di Linux: un descrittore per
/// intestazione più `payload` byte.
fn offer_rx(d: &mut Driver<VirtioMmio<VirtioVsock>>, n: usize, payload: u32) -> Vec<(u16, u64)> {
    (0..n)
        .map(|_| {
            let a = d.allocate(u64::from(payload) + HDR_LEN as u64, 8);
            (d.add(RXQ, &[(a, payload + HDR_LEN as u32, true)]), a)
        })
        .collect()
}

/// Pacchetti arrivati al guest.
fn rx(d: &mut Driver<VirtioMmio<VirtioVsock>>, bufs: &mut Vec<(u16, u64)>) -> Vec<(Hdr, Vec<u8>)> {
    d.service();
    let mut out = Vec::new();
    while let Some((head, len)) = d.pop_used(RXQ) {
        let i = bufs.iter().position(|b| b.0 == head).unwrap();
        let (_, a) = bufs.remove(i);
        let bytes = d.mem(a, len as usize);
        let h = Hdr::parse(&bytes[..HDR_LEN].try_into().unwrap());
        assert_eq!(h.len as usize, len as usize - HDR_LEN);
        out.push((h, bytes[HDR_LEN..].to_vec()));
    }
    out
}

fn ops(p: &[(Hdr, Vec<u8>)]) -> Vec<u16> {
    p.iter().map(|(h, _)| h.op).collect()
}

#[test]
fn configurazione() {
    let mut d = driver();
    assert_eq!(d.t.rd(DEVICE_ID), ID_VSOCK);
    assert_eq!(d.t.cfg(0, 8), CID);
    assert_eq!(d.t.cfg(0, 4), CID, "letture a 32 bit come fa Linux");
    assert_eq!(d.features & 0xFF_FFFF, F_STREAM);
    for q in 0..3 {
        d.t.wr(QUEUE_SEL, q);
        assert_eq!(d.t.rd(QUEUE_NUM_MAX), 128);
    }
    d.t.wr(QUEUE_SEL, 3);
    assert_eq!(d.t.rd(QUEUE_NUM_MAX), 0);
}

#[test]
fn il_guest_si_collega_all_host() {
    let mut d = driver();
    let mut bufs = offer_rx(&mut d, 8, 4096);
    vs(&mut d).listen(1234).unwrap();
    assert_eq!(vs(&mut d).listen(1234), Err(VsockError::PortInUse));
    send(&mut d, g(1025, 1234, OP_REQUEST), &[]);
    let p = rx(&mut d, &mut bufs);
    assert_eq!(ops(&p), [OP_RESPONSE]);
    let h = p[0].0;
    assert_eq!((h.src_cid, h.dst_cid, h.src_port, h.dst_port), (HOST_CID, CID, 1234, 1025));
    assert_eq!((h.buf_alloc, h.fwd_cnt, h.ty), (HOST_BUF_ALLOC, 0, TYPE_STREAM));
    let c = vs(&mut d).accept(1234).unwrap();
    assert_eq!(c, VsockConn { host_port: 1234, guest_port: 1025 });
    assert_eq!(vs(&mut d).accept(1234), None);
    assert_eq!(vs(&mut d).state(c), Some(VsockState::Connected));

    // Dati dal guest, poi SHUTDOWN in scrittura: l'host legge fino all'EOF.
    send(&mut d, g(1025, 1234, OP_RW), b"ciao ");
    send(&mut d, g(1025, 1234, OP_RW), b"host");
    let mut sh = g(1025, 1234, OP_SHUTDOWN);
    sh.flags = SHUTDOWN_SEND;
    send(&mut d, sh, &[]);
    assert_eq!(vs(&mut d).available(c), 9);
    assert!(!vs(&mut d).eof(c));
    assert_eq!(vs(&mut d).recv(c, 100), b"ciao host");
    assert!(vs(&mut d).eof(c));

    // Risposta dell'host e chiusura: dati, poi SHUTDOWN, poi l'RST del guest.
    vs(&mut d).send(c, b"CIAO").unwrap();
    vs(&mut d).close(c);
    assert_eq!(vs(&mut d).send(c, b"x"), Err(VsockError::Closed));
    let p = rx(&mut d, &mut bufs);
    assert_eq!(ops(&p), [OP_RW, OP_SHUTDOWN]);
    assert_eq!(p[0].1, b"CIAO");
    assert_eq!(p[0].0.fwd_cnt, 9, "l'host annuncia i byte consumati");
    assert_eq!(p[1].0.flags, SHUTDOWN_RCV | SHUTDOWN_SEND);
    assert_eq!(vs(&mut d).state(c), Some(VsockState::Closing));
    send(&mut d, g(1025, 1234, OP_RST), &[]);
    assert_eq!(vs(&mut d).state(c), Some(VsockState::Closed));
    assert!(rx(&mut d, &mut bufs).is_empty(), "niente risposta a un RST");
    vs(&mut d).release(c);
    assert_eq!(vs(&mut d).state(c), None);
}

#[test]
fn chiusura_completa_del_guest_riceve_rst() {
    let mut d = driver();
    let mut bufs = offer_rx(&mut d, 8, 4096);
    vs(&mut d).listen(5).unwrap();
    send(&mut d, g(40, 5, OP_REQUEST), &[]);
    rx(&mut d, &mut bufs);
    let c = vs(&mut d).accept(5).unwrap();
    send(&mut d, g(40, 5, OP_RW), b"ultimi");
    let mut sh = g(40, 5, OP_SHUTDOWN);
    sh.flags = SHUTDOWN_RCV | SHUTDOWN_SEND;
    send(&mut d, sh, &[]);
    assert_eq!(ops(&rx(&mut d, &mut bufs)), [OP_RST]);
    assert_eq!(vs(&mut d).state(c), Some(VsockState::Closed));
    assert_eq!(vs(&mut d).recv(c, 100), b"ultimi", "i dati restano leggibili");
    assert!(vs(&mut d).eof(c));
    // La stessa coppia di porte si può riaprire.
    send(&mut d, g(40, 5, OP_REQUEST), &[]);
    assert_eq!(ops(&rx(&mut d, &mut bufs)), [OP_RESPONSE]);
    assert_eq!(vs(&mut d).state(c), Some(VsockState::Connected));
}

#[test]
fn rifiuti_e_pacchetti_scartati() {
    let mut d = driver();
    let mut bufs = offer_rx(&mut d, 8, 4096);
    // Porta non in ascolto; dati senza connessione: RST con le porte scambiate.
    send(&mut d, g(1, 99, OP_REQUEST), &[]);
    send(&mut d, g(2, 98, OP_RW), b"x");
    let p = rx(&mut d, &mut bufs);
    assert_eq!(ops(&p), [OP_RST, OP_RST]);
    assert_eq!((p[0].0.src_port, p[0].0.dst_port), (99, 1));
    // Un RST senza connessione non riceve risposta.
    send(&mut d, g(3, 97, OP_RST), &[]);
    // CID sbagliati: scartati senza risposta.
    let mut h = g(1, 99, OP_REQUEST);
    h.src_cid = 3;
    send(&mut d, h, &[]);
    let mut h = g(1, 99, OP_REQUEST);
    h.dst_cid = 1;
    send(&mut d, h, &[]);
    // Lunghezza oltre i dati presenti: scartato.
    let mut h = g(1, 99, OP_RW);
    h.len = 10;
    let a = d.buf(&h.to_bytes());
    d.add(TXQ, &[(a, HDR_LEN as u32, false)]);
    d.service();
    assert!(rx(&mut d, &mut bufs).is_empty());
    assert_eq!(vs(&mut d).dropped(), 3);
    // Tipo SEQPACKET (non negoziato): RST.
    vs(&mut d).listen(99).unwrap();
    let mut h = g(1, 99, OP_REQUEST);
    h.ty = 2;
    send(&mut d, h, &[]);
    assert_eq!(ops(&rx(&mut d, &mut bufs)), [OP_RST]);
    assert_eq!(vs(&mut d).accept(99), None);
    assert!(d.t.last_error().is_none());
}

#[test]
fn l_host_si_collega_e_rispetta_il_credito() {
    let mut d = driver();
    let mut bufs = offer_rx(&mut d, 16, 64);
    let c = vs(&mut d).connect(5555);
    assert_eq!(c, VsockConn { host_port: FIRST_HOST_PORT, guest_port: 5555 });
    assert_eq!(vs(&mut d).state(c), Some(VsockState::Connecting));
    vs(&mut d).send(c, &[7u8; 300]).unwrap();
    let p = rx(&mut d, &mut bufs);
    assert_eq!(ops(&p), [OP_REQUEST], "i dati aspettano la RESPONSE");
    assert_eq!((p[0].0.src_port, p[0].0.dst_port), (FIRST_HOST_PORT, 5555));
    // Il guest accetta con un buffer di 100 byte.
    let mut r = g(5555, FIRST_HOST_PORT, OP_RESPONSE);
    r.buf_alloc = 100;
    send(&mut d, r, &[]);
    assert_eq!(vs(&mut d).state(c), Some(VsockState::Connected));
    let p = rx(&mut d, &mut bufs);
    // Buffer da 64 byte di carico: 64 + 36 = i 100 di credito.
    assert_eq!(ops(&p), [OP_RW, OP_RW]);
    assert_eq!(p.iter().map(|x| x.1.len()).collect::<Vec<_>>(), [64, 36]);
    assert_eq!(vs(&mut d).unsent(c), 200);
    // Il guest consuma 80 byte e lo dice: altri 80 partono.
    let mut cu = g(5555, FIRST_HOST_PORT, OP_CREDIT_UPDATE);
    cu.buf_alloc = 100;
    cu.fwd_cnt = 80;
    send(&mut d, cu, &[]);
    let p = rx(&mut d, &mut bufs);
    assert_eq!(p.iter().map(|x| x.1.len()).sum::<usize>(), 80);
    assert_eq!(vs(&mut d).unsent(c), 120);
    // Una seconda connessione prende la porta dopo.
    assert_eq!(vs(&mut d).connect(1).host_port, FIRST_HOST_PORT + 1);
}

#[test]
fn chiusura_della_sola_trasmissione_dell_host() {
    let mut d = driver();
    let mut bufs = offer_rx(&mut d, 8, 4096);
    // Dati e chiusura della trasmissione prima ancora della RESPONSE.
    let c = vs(&mut d).connect(5000);
    vs(&mut d).send(c, b"dati").unwrap();
    vs(&mut d).shutdown_send(c);
    assert_eq!(ops(&rx(&mut d, &mut bufs)), [OP_REQUEST]);
    send(&mut d, g(5000, FIRST_HOST_PORT, OP_RESPONSE), &[]);
    assert_eq!(vs(&mut d).send(c, b"x"), Err(VsockError::Closed));
    let p = rx(&mut d, &mut bufs);
    assert_eq!(ops(&p), [OP_RW, OP_SHUTDOWN]);
    assert_eq!(p[1].0.flags, SHUTDOWN_SEND);
    // Il guest risponde e chiude del tutto: l'host legge e risponde RST.
    assert_eq!(vs(&mut d).state(c), Some(VsockState::Connected));
    send(&mut d, g(5000, FIRST_HOST_PORT, OP_RW), b"DATI");
    let mut sh = g(5000, FIRST_HOST_PORT, OP_SHUTDOWN);
    sh.flags = SHUTDOWN_RCV | SHUTDOWN_SEND;
    send(&mut d, sh, &[]);
    assert_eq!(ops(&rx(&mut d, &mut bufs)), [OP_RST]);
    assert_eq!(vs(&mut d).recv(c, 10), b"DATI");
    assert!(vs(&mut d).eof(c));
    assert_eq!(vs(&mut d).state(c), Some(VsockState::Closed));
}

#[test]
fn chiusura_prima_della_risposta() {
    let mut d = driver();
    let mut bufs = offer_rx(&mut d, 8, 4096);
    let c = vs(&mut d).connect(6000);
    vs(&mut d).send(c, b"addio").unwrap();
    vs(&mut d).close(c);
    assert_eq!(vs(&mut d).state(c), Some(VsockState::Connecting));
    assert_eq!(ops(&rx(&mut d, &mut bufs)), [OP_REQUEST]);
    send(&mut d, g(6000, FIRST_HOST_PORT, OP_RESPONSE), &[]);
    assert_eq!(vs(&mut d).state(c), Some(VsockState::Closing));
    let p = rx(&mut d, &mut bufs);
    assert_eq!(ops(&p), [OP_RW, OP_SHUTDOWN]);
    assert_eq!(p[1].0.flags, SHUTDOWN_RCV | SHUTDOWN_SEND);
}

#[test]
fn rifiuto_del_guest() {
    let mut d = driver();
    let mut bufs = offer_rx(&mut d, 4, 64);
    let c = vs(&mut d).connect(9);
    rx(&mut d, &mut bufs);
    send(&mut d, g(9, FIRST_HOST_PORT, OP_RST), &[]);
    assert_eq!(vs(&mut d).state(c), Some(VsockState::Closed));
    assert!(vs(&mut d).eof(c));
    assert_eq!(vs(&mut d).send(c, b"x"), Err(VsockError::Closed));
}

#[test]
fn credit_request_is_answered_while_closing() {
    let mut d = driver();
    let mut bufs = offer_rx(&mut d, 8, 4096);
    vs(&mut d).listen(1).unwrap();
    send(&mut d, g(2, 1, OP_REQUEST), &[]);
    rx(&mut d, &mut bufs);
    let c = vs(&mut d).accept(1).unwrap();
    send(&mut d, g(2, 1, OP_RW), b"last");
    vs(&mut d).close(c);
    assert_eq!(ops(&rx(&mut d, &mut bufs)), [OP_SHUTDOWN]);
    assert_eq!(vs(&mut d).recv(c, 100), b"last");
    send(&mut d, g(2, 1, OP_CREDIT_REQUEST), &[]);
    let p = rx(&mut d, &mut bufs);
    assert_eq!(ops(&p), [OP_CREDIT_UPDATE]);
    assert_eq!((p[0].0.buf_alloc, p[0].0.fwd_cnt), (HOST_BUF_ALLOC, 4));
    assert_eq!(vs(&mut d).state(c), Some(VsockState::Closing));
}

#[test]
fn aggiornamenti_di_credito_dell_host() {
    let mut d = driver();
    let mut bufs = offer_rx(&mut d, 8, 4096);
    vs(&mut d).listen(1).unwrap();
    send(&mut d, g(2, 1, OP_REQUEST), &[]);
    rx(&mut d, &mut bufs);
    let c = vs(&mut d).accept(1).unwrap();
    // Il guest riempie quasi tutto il buffer dell'host.
    let chunk = vec![1u8; 60 * 1024];
    for _ in 0..4 {
        send(&mut d, g(2, 1, OP_RW), &chunk);
    }
    // Consumo piccolo con tanto spazio visto: nessun aggiornamento... ma qui
    // il guest vede 256 - 240 = 16 KiB liberi: parte CREDIT_UPDATE.
    assert_eq!(vs(&mut d).recv(c, 1000).len(), 1000);
    let p = rx(&mut d, &mut bufs);
    assert_eq!(ops(&p), [OP_CREDIT_UPDATE]);
    assert_eq!(p[0].0.fwd_cnt, 1000);
    // Subito dopo il guest vede 16 KiB + 1000: ancora sotto soglia, ma
    // senza nuovi consumi non si manda nulla.
    assert!(rx(&mut d, &mut bufs).is_empty());
    // CREDIT_REQUEST: risposta con il credito attuale.
    send(&mut d, g(2, 1, OP_CREDIT_REQUEST), &[]);
    let p = rx(&mut d, &mut bufs);
    assert_eq!(ops(&p), [OP_CREDIT_UPDATE]);
    // Con il buffer quasi vuoto un consumo non manda aggiornamenti.
    let mut d = driver();
    let mut bufs = offer_rx(&mut d, 8, 4096);
    vs(&mut d).listen(1).unwrap();
    send(&mut d, g(2, 1, OP_REQUEST), &[]);
    rx(&mut d, &mut bufs);
    let c = vs(&mut d).accept(1).unwrap();
    send(&mut d, g(2, 1, OP_RW), b"poco");
    vs(&mut d).recv(c, 10);
    assert!(rx(&mut d, &mut bufs).is_empty());
}

#[test]
fn reset_del_trasporto_e_del_dispositivo() {
    let mut d = driver();
    let mut bufs = offer_rx(&mut d, 4, 64);
    vs(&mut d).listen(1).unwrap();
    send(&mut d, g(2, 1, OP_REQUEST), &[]);
    rx(&mut d, &mut bufs);
    let c = vs(&mut d).accept(1).unwrap();
    let ev = d.allocate(4, 4);
    let head = d.add(EVTQ, &[(ev, 4, true)]);
    d.ram.write(ev, &[0xff; 4]).unwrap();
    vs(&mut d).transport_reset();
    d.service();
    assert_eq!(d.pop_used(EVTQ), Some((head, 4)));
    assert_eq!(d.mem(ev, 4), EVENT_TRANSPORT_RESET.to_le_bytes());
    assert_eq!(vs(&mut d).state(c), Some(VsockState::Closed));
    assert!(rx(&mut d, &mut bufs).is_empty(), "niente RST dopo il reset del trasporto");
    // Reset del dispositivo: connessioni chiuse, l'ascolto resta.
    send(&mut d, g(3, 1, OP_REQUEST), &[]);
    let c2 = vs(&mut d).accept(1).unwrap();
    d.init(u64::MAX, 32);
    assert_eq!(vs(&mut d).state(c2), Some(VsockState::Closed));
    let mut bufs = offer_rx(&mut d, 4, 64);
    send(&mut d, g(4, 1, OP_REQUEST), &[]);
    assert_eq!(ops(&rx(&mut d, &mut bufs)), [OP_RESPONSE]);
}

/// A port that listens, or that a connection uses, is refused.
#[test]
fn port_in_use_is_refused() {
    let mut v = VirtioVsock::new(7);
    let c = v.connect(5555);
    assert_eq!(c.host_port, FIRST_HOST_PORT);
    assert_eq!(v.listen(FIRST_HOST_PORT), Err(VsockError::PortInUse));
    assert_eq!(v.listen(FIRST_HOST_PORT + 1), Ok(()));
    assert_eq!(v.listen(FIRST_HOST_PORT + 1), Err(VsockError::PortInUse));
    v.unlisten(FIRST_HOST_PORT + 1);
    assert_eq!(v.listen(FIRST_HOST_PORT + 1), Ok(()));
}

#[test]
fn tests_deterministico() {
    // La stessa sequenza di operazioni dà gli stessi pacchetti.
    let run = || {
        let mut d = driver();
        let mut bufs = offer_rx(&mut d, 32, 128);
        vs(&mut d).listen(10).unwrap();
        let a = vs(&mut d).connect(20);
        let b = vs(&mut d).connect(21);
        send(&mut d, g(30, 10, OP_REQUEST), &[]);
        for (c, gp) in [(a, 20), (b, 21)] {
            let mut r = g(gp, c.host_port, OP_RESPONSE);
            r.buf_alloc = 1000;
            send(&mut d, r, &[]);
            vs(&mut d).send(c, &[gp as u8; 200]).unwrap();
        }
        rx(&mut d, &mut bufs).into_iter().map(|(h, data)| (h.to_bytes().to_vec(), data)).collect::<Vec<_>>()
    };
    let (x, y) = (run(), run());
    assert_eq!(x, y);
    assert_eq!(x.len(), 3 + 2 * 2, "REQUEST x2, RESPONSE, poi 200 byte a pezzi da 128 per connessione");
}

// ---- Driver di prova ------------------------------------------------------------

/// Base della RAM finta: la stessa della macchina virt.
pub const RAM_BASE: u64 = 0x4000_0000;
const RAM_SIZE: usize = 8 << 20;

/// Come il driver raggiunge i registri del trasporto.
pub trait Transport {
    fn rd(&mut self, off: u64) -> u32;
    fn wr(&mut self, off: u64, v: u32);
    fn cfg(&mut self, off: u64, size: u8) -> u64;
    fn cfg_wr(&mut self, off: u64, size: u8, v: u64);
    fn service(&mut self, ram: &mut VecRam);
}

impl<V: VirtioDevice> Transport for VirtioMmio<V> {
    fn rd(&mut self, off: u64) -> u32 {
        self.read(off, 4) as u32
    }
    fn wr(&mut self, off: u64, v: u32) {
        self.write(off, 4, u64::from(v));
    }
    fn cfg(&mut self, off: u64, size: u8) -> u64 {
        self.read(CONFIG + off, size)
    }
    fn cfg_wr(&mut self, off: u64, size: u8, v: u64) {
        self.write(CONFIG + off, size, v);
    }
    fn service(&mut self, ram: &mut VecRam) {
        VirtioMmio::service(self, ram);
    }
}

pub struct DrvQueue {
    pub size: u16,
    pub desc: u64,
    pub avail: u64,
    pub used: u64,
    free: Vec<u16>,
    avail_idx: u16,
    last_used: u16,
    /// Descrittori (diretti) occupati da ogni catena, per testa.
    chains: HashMap<u16, Vec<u16>>,
}

pub struct Driver<T: Transport> {
    pub t: T,
    pub ram: VecRam,
    next: u64,
    pub queues: Vec<DrvQueue>,
    pub features: u64,
}

/// Buffer di una catena: (indirizzo, lunghezza, scrivibile dal dispositivo).
pub type B = (u64, u32, bool);

impl<T: Transport> Driver<T> {
    pub fn new(t: T) -> Self {
        Self { t, ram: VecRam::new(RAM_BASE, RAM_SIZE), next: RAM_BASE, queues: Vec::new(), features: 0 }
    }

    pub fn allocate(&mut self, len: u64, align: u64) -> u64 {
        let a = self.next.next_multiple_of(align);
        self.next = a + len.max(1);
        assert!(self.next <= RAM_BASE + RAM_SIZE as u64, "RAM finta esaurita");
        a
    }

    /// Buffer con il contenuto dato.
    pub fn buf(&mut self, data: &[u8]) -> u64 {
        let a = self.allocate(data.len() as u64, 8);
        self.ram.write(a, data).unwrap();
        a
    }

    pub fn mem(&self, addr: u64, len: usize) -> Vec<u8> {
        let mut v = vec![0; len];
        self.ram.read(addr, &mut v).unwrap();
        v
    }

    fn status(&mut self, bits: u32) {
        let s = self.t.rd(STATUS);
        self.t.wr(STATUS, s | bits);
    }

    /// Fino a FEATURES_OK: reset, ACKNOWLEDGE, DRIVER, feature `offerte &
    /// wanted`. Restituisce lo Status riletto.
    pub fn negotiate(&mut self, wanted: u64) -> u32 {
        assert_eq!(self.t.rd(MAGIC_VALUE), MAGIC);
        assert_eq!(self.t.rd(VERSION), 2);
        self.t.wr(STATUS, 0);
        assert_eq!(self.t.rd(STATUS), 0);
        self.status(STATUS_ACKNOWLEDGE);
        self.status(STATUS_DRIVER);
        self.t.wr(DEVICE_FEATURES_SEL, 1);
        let mut offered = u64::from(self.t.rd(DEVICE_FEATURES)) << 32;
        self.t.wr(DEVICE_FEATURES_SEL, 0);
        offered |= u64::from(self.t.rd(DEVICE_FEATURES));
        self.features = offered & wanted;
        self.t.wr(DRIVER_FEATURES_SEL, 1);
        self.t.wr(DRIVER_FEATURES, (self.features >> 32) as u32);
        self.t.wr(DRIVER_FEATURES_SEL, 0);
        self.t.wr(DRIVER_FEATURES, self.features as u32);
        self.status(STATUS_FEATURES_OK);
        self.t.rd(STATUS)
    }

    /// Negoziazione completa, code (al massimo `qsize` voci) e DRIVER_OK.
    pub fn init(&mut self, wanted: u64, qsize: u16) -> u64 {
        let st = self.negotiate(wanted);
        assert_ne!(st & STATUS_FEATURES_OK, 0, "FEATURES_OK rifiutato");
        self.queues.clear();
        for i in 0.. {
            self.t.wr(QUEUE_SEL, i);
            assert_eq!(self.t.rd(QUEUE_READY), 0);
            let max = self.t.rd(QUEUE_NUM_MAX);
            if max == 0 {
                break;
            }
            self.setup_queue((max as u16).min(qsize));
        }
        self.status(STATUS_DRIVER_OK);
        self.features
    }

    fn setup_queue(&mut self, size: u16) {
        let n = u64::from(size);
        let desc = self.allocate(16 * n, 16);
        let avail = self.allocate(6 + 2 * n, 2);
        let used = self.allocate(6 + 8 * n, 4);
        self.t.wr(QUEUE_NUM, u32::from(size));
        for (lo, a) in [(QUEUE_DESC_LOW, desc), (QUEUE_DRIVER_LOW, avail), (QUEUE_DEVICE_LOW, used)] {
            self.t.wr(lo, a as u32);
            self.t.wr(lo + 4, (a >> 32) as u32);
        }
        self.t.wr(QUEUE_READY, 1);
        assert_eq!(self.t.rd(QUEUE_READY), 1);
        self.queues.push(DrvQueue {
            size,
            desc,
            avail,
            used,
            free: (0..size).rev().collect(),
            avail_idx: 0,
            last_used: 0,
            chains: HashMap::new(),
        });
    }

    fn put_desc(&mut self, table: u64, i: u16, addr: u64, len: u32, flags: u16, next: u16) {
        let mut b = [0u8; 16];
        b[0..8].copy_from_slice(&addr.to_le_bytes());
        b[8..12].copy_from_slice(&len.to_le_bytes());
        b[12..14].copy_from_slice(&flags.to_le_bytes());
        b[14..16].copy_from_slice(&next.to_le_bytes());
        self.ram.write(table + 16 * u64::from(i), &b).unwrap();
    }

    /// Pubblica la testa nell'available ring e notifica la coda.
    fn publish(&mut self, qi: usize, head: u16) {
        let q = &mut self.queues[qi];
        let slot = u64::from(q.avail_idx % q.size);
        let (avail, idx) = (q.avail, q.avail_idx.wrapping_add(1));
        q.avail_idx = idx;
        self.ram.write_u16(avail + 4 + 2 * slot, head).unwrap();
        self.ram.write_u16(avail + 2, idx).unwrap();
        self.t.wr(QUEUE_NOTIFY, qi as u32);
    }

    /// Catena di descrittori diretti.
    pub fn add(&mut self, qi: usize, bufs: &[B]) -> u16 {
        let q = &mut self.queues[qi];
        let ids: Vec<u16> = (0..bufs.len()).map(|_| q.free.pop().expect("coda piena")).collect();
        let table = q.desc;
        for (k, &(addr, len, w)) in bufs.iter().enumerate() {
            let mut flags = if w { DESC_F_WRITE } else { 0 };
            let next = ids.get(k + 1).copied().unwrap_or(0);
            if k + 1 < bufs.len() {
                flags |= DESC_F_NEXT;
            }
            self.put_desc(table, ids[k], addr, len, flags, next);
        }
        self.queues[qi].chains.insert(ids[0], ids.clone());
        self.publish(qi, ids[0]);
        ids[0]
    }

    /// Catena in una tabella indiretta (un solo descrittore nella coda).
    pub fn add_indirect(&mut self, qi: usize, bufs: &[B]) -> u16 {
        let table = self.allocate(16 * bufs.len() as u64, 16);
        for (k, &(addr, len, w)) in bufs.iter().enumerate() {
            let mut flags = if w { DESC_F_WRITE } else { 0 };
            if k + 1 < bufs.len() {
                flags |= DESC_F_NEXT;
            }
            self.put_desc(table, k as u16, addr, len, flags, k as u16 + 1);
        }
        let q = &mut self.queues[qi];
        let head = q.free.pop().expect("coda piena");
        let desc = q.desc;
        self.put_desc(desc, head, table, 16 * bufs.len() as u32, DESC_F_INDIRECT, 0);
        self.queues[qi].chains.insert(head, vec![head]);
        self.publish(qi, head);
        head
    }

    /// Prossimo elemento dello used ring (testa, byte scritti), come
    /// `virtqueue_get_buf`; con EVENT_IDX aggiorna used_event come
    /// `virtqueue_enable_cb`.
    pub fn pop_used(&mut self, qi: usize) -> Option<(u16, u32)> {
        let event_idx = self.features & F_EVENT_IDX != 0;
        let q = &mut self.queues[qi];
        let idx = self.ram.read_u16(q.used + 2).unwrap();
        if idx == q.last_used {
            return None;
        }
        let e = q.used + 4 + 8 * u64::from(q.last_used % q.size);
        let id = self.ram.read_u32(e).unwrap() as u16;
        let len = self.ram.read_u32(e + 4).unwrap();
        q.last_used = q.last_used.wrapping_add(1);
        let ids = q.chains.remove(&id).expect("id restituito due volte");
        q.free.extend(ids);
        if event_idx {
            let at = q.avail + 4 + 2 * u64::from(q.size);
            let v = q.last_used;
            self.ram.write_u16(at, v).unwrap();
        }
        Some((id, len))
    }

    /// avail_event scritto dal dispositivo (con EVENT_IDX).
    pub fn avail_event(&self, qi: usize) -> u16 {
        let q = &self.queues[qi];
        self.ram.read_u16(q.used + 4 + 8 * u64::from(q.size)).unwrap()
    }

    pub fn set_avail_flags(&mut self, qi: usize, flags: u16) {
        let a = self.queues[qi].avail;
        self.ram.write_u16(a, flags).unwrap();
    }

    pub fn set_used_event(&mut self, qi: usize, v: u16) {
        let q = &self.queues[qi];
        let at = q.avail + 4 + 2 * u64::from(q.size);
        self.ram.write_u16(at, v).unwrap();
    }

    pub fn service(&mut self) {
        self.t.service(&mut self.ram);
    }

    /// Handler dell'interrupt: legge InterruptStatus e lo riconosce.
    pub fn irq(&mut self) -> u32 {
        let s = self.t.rd(INTERRUPT_STATUS);
        self.t.wr(INTERRUPT_ACK, s);
        s
    }
}

/// The host connects from the ports that it keeps for that.
#[test]
fn host_connects_from_its_own_ports() {
    let mut d = VirtioVsock::new(3);
    d.listen(49_153).unwrap();
    assert_eq!(d.connect(1).host_port, 49_152);
    assert_eq!(d.connect(1).host_port, 49_154);
    d.next_port = u32::MAX;
    assert_eq!(d.connect(2).host_port, u32::MAX);
    assert_eq!(d.next_port, 49_152);
    assert_eq!(d.connect(2).host_port, 49_155);
}
