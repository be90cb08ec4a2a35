use vetro::platform::virtio::queue::{AVAIL_F_NO_INTERRUPT, Buf, DESC_F_INDIRECT, DESC_F_NEXT, DESC_F_WRITE, QueueError, Virtqueue, need_event};
use vetro::platform::virtio::ram::{VecRam};
use vetro::platform::virtio::ram::GuestRamExt;
use vetro::platform::virtio::ram::GuestRam;

const DESC: u64 = 0x1000;
const AVAIL: u64 = 0x2000;
const USED: u64 = 0x3000;

fn ram() -> VecRam {
    VecRam::new(0, 0x10000)
}

fn queue(size: u16) -> Virtqueue {
    let mut q = Virtqueue::new(256);
    q.set_size(size);
    q.set_desc(DESC);
    q.set_driver(AVAIL);
    q.set_device(USED);
    assert!(q.set_ready(true));
    q
}

fn put_desc(r: &mut VecRam, table: u64, i: u16, addr: u64, len: u32, flags: u16, next: u16) {
    let mut b = [0u8; 16];
    b[0..8].copy_from_slice(&addr.to_le_bytes());
    b[8..12].copy_from_slice(&len.to_le_bytes());
    b[12..14].copy_from_slice(&flags.to_le_bytes());
    b[14..16].copy_from_slice(&next.to_le_bytes());
    r.write(table + 16 * u64::from(i), &b).unwrap();
}

fn offer(r: &mut VecRam, size: u16, head: u16) {
    let idx = r.read_u16(AVAIL + 2).unwrap();
    r.write_u16(AVAIL + 4 + 2 * u64::from(idx % size), head).unwrap();
    r.write_u16(AVAIL + 2, idx.wrapping_add(1)).unwrap();
}

#[test]
fn need_event_come_linux() {
    assert!(need_event(0, 1, 0));
    assert!(!need_event(1, 1, 0));
    assert!(need_event(5, 8, 3));
    assert!(!need_event(8, 8, 3));
    assert!(need_event(0xFFFF, 2, 0xFFFE)); // a cavallo dell'overflow
}

#[test]
fn ready_rifiuta_configurazioni_invalide() {
    let mut q = Virtqueue::new(8);
    q.set_size(6);
    assert!(!q.set_ready(true), "non potenza di 2");
    q.set_size(16);
    assert!(!q.set_ready(true), "oltre il massimo");
    q.set_size(8);
    q.set_desc(0x1008);
    assert!(!q.set_ready(true), "tabella non allineata a 16");
    q.set_desc(0x1000);
    q.set_device(0x3002);
    assert!(!q.set_ready(true), "used ring non allineato a 4");
    q.set_device(0x3000);
    assert!(q.set_ready(true));
    assert!(!q.set_ready(false));
}

#[test]
fn catena_diretta_leggibili_poi_scrivibili() {
    let mut r = ram();
    let mut q = queue(8);
    put_desc(&mut r, DESC, 3, 0x5000, 4, DESC_F_NEXT, 5);
    put_desc(&mut r, DESC, 5, 0x6000, 3, DESC_F_NEXT, 1);
    put_desc(&mut r, DESC, 1, 0x7000, 8, DESC_F_WRITE, 0);
    r.write(0x5000, b"abcd").unwrap();
    r.write(0x6000, b"efg").unwrap();
    offer(&mut r, 8, 3);
    assert_eq!(q.available(&r), Ok(1));
    let c = q.pop(&mut r).unwrap().unwrap();
    assert_eq!(c.head, 3);
    assert_eq!(c.readable_len(), 7);
    assert_eq!(c.writable, [Buf { addr: 0x7000, len: 8 }]);
    assert_eq!(c.read_to_vec(&r, 2).unwrap(), b"cdefg");
    assert_eq!(c.write(&mut r, 6, b"xyz").unwrap(), 2);
    assert_eq!(&r.bytes[0x7006..0x7008], b"xy");
    assert_eq!(q.pop(&mut r), Ok(None));
}

#[test]
fn used_ring_e_notifica_senza_event_idx() {
    let mut r = ram();
    let mut q = queue(4);
    for head in [2, 0, 1, 3, 2] {
        put_desc(&mut r, DESC, head, 0x5000, 1, DESC_F_WRITE, 0);
        offer(&mut r, 4, head);
        let c = q.pop(&mut r).unwrap().unwrap();
        q.push_used(&mut r, c.head, 1).unwrap();
    }
    assert_eq!(r.read_u16(USED + 2), Ok(5));
    // Il quinto elemento torna nello slot 0.
    assert_eq!(r.read_u32(USED + 4), Ok(2));
    assert_eq!(r.read_u32(USED + 8), Ok(1));
    assert_eq!(q.should_notify(&r), Ok(true));
    assert_eq!(q.should_notify(&r), Ok(false), "niente di nuovo");
    r.write_u16(AVAIL, AVAIL_F_NO_INTERRUPT).unwrap();
    offer(&mut r, 4, 0);
    let c = q.pop(&mut r).unwrap().unwrap();
    q.push_used(&mut r, c.head, 0).unwrap();
    assert_eq!(q.should_notify(&r), Ok(false));
}

#[test]
fn event_idx_rispetta_used_event_e_pubblica_avail_event() {
    let mut r = ram();
    let mut q = queue(8);
    q.event_idx = true;
    let used_event = AVAIL + 4 + 2 * 8;
    let avail_event = USED + 4 + 8 * 8;
    // Il driver vuole un interrupt solo dopo il terzo buffer (idx 2).
    r.write_u16(used_event, 2).unwrap();
    for i in 0..3u16 {
        put_desc(&mut r, DESC, i, 0x5000, 1, 0, 0);
        offer(&mut r, 8, i);
        let c = q.pop(&mut r).unwrap().unwrap();
        assert_eq!(r.read_u16(avail_event), Ok(i + 1));
        q.push_used(&mut r, c.head, 0).unwrap();
        assert_eq!(q.should_notify(&r), Ok(i == 2), "dopo il buffer {i}");
    }
    // Due buffer insieme che scavalcano used_event = 4: una notifica.
    r.write_u16(used_event, 4).unwrap();
    for i in 3..5u16 {
        put_desc(&mut r, DESC, i, 0x5000, 1, 0, 0);
        offer(&mut r, 8, i);
        let c = q.pop(&mut r).unwrap().unwrap();
        q.push_used(&mut r, c.head, 0).unwrap();
    }
    assert_eq!(q.should_notify(&r), Ok(true));
}

#[test]
fn catena_indiretta() {
    let mut r = ram();
    let mut q = queue(8);
    q.indirect = true;
    let table = 0x8000;
    put_desc(&mut r, table, 0, 0x5000, 2, DESC_F_NEXT, 2);
    put_desc(&mut r, table, 2, 0x5100, 2, DESC_F_NEXT, 1);
    put_desc(&mut r, table, 1, 0x5200, 4, DESC_F_WRITE, 0);
    // WRITE sul descrittore indiretto va ignorato, NEXT anche.
    put_desc(&mut r, DESC, 6, table, 48, DESC_F_INDIRECT | DESC_F_WRITE | DESC_F_NEXT, 7);
    offer(&mut r, 8, 6);
    let c = q.pop(&mut r).unwrap().unwrap();
    assert_eq!(c.head, 6);
    assert_eq!(c.readable, [Buf { addr: 0x5000, len: 2 }, Buf { addr: 0x5100, len: 2 }]);
    assert_eq!(c.writable, [Buf { addr: 0x5200, len: 4 }]);
}

fn pop_err(setup: impl FnOnce(&mut VecRam, &mut Virtqueue)) -> QueueError {
    let mut r = ram();
    let mut q = queue(4);
    setup(&mut r, &mut q);
    q.pop(&mut r).unwrap_err()
}

#[test]
fn errori_delle_catene() {
    assert_eq!(pop_err(|r, _| offer(r, 4, 4)), QueueError::HeadOutOfRange(4));
    assert_eq!(
        pop_err(|r, _| {
            put_desc(r, DESC, 0, 0, 1, DESC_F_NEXT, 9);
            offer(r, 4, 0);
        }),
        QueueError::NextOutOfRange(9)
    );
    assert_eq!(
        pop_err(|r, _| {
            put_desc(r, DESC, 0, 0, 1, DESC_F_NEXT, 1);
            put_desc(r, DESC, 1, 0, 1, DESC_F_NEXT, 0);
            offer(r, 4, 0);
        }),
        QueueError::ChainLoop
    );
    assert_eq!(
        pop_err(|r, _| {
            put_desc(r, DESC, 0, 0, 1, DESC_F_WRITE | DESC_F_NEXT, 1);
            put_desc(r, DESC, 1, 0, 1, 0, 0);
            offer(r, 4, 0);
        }),
        QueueError::ReadableAfterWritable
    );
    assert_eq!(
        pop_err(|r, _| {
            put_desc(r, DESC, 0, 0x8000, 16, DESC_F_INDIRECT, 0);
            offer(r, 4, 0);
        }),
        QueueError::IndirectNotNegotiated
    );
    assert_eq!(
        pop_err(|r, q| {
            q.indirect = true;
            put_desc(r, DESC, 0, 0x8000, 24, DESC_F_INDIRECT, 0);
            offer(r, 4, 0);
        }),
        QueueError::IndirectLen(24)
    );
    assert_eq!(
        pop_err(|r, q| {
            q.indirect = true;
            put_desc(r, DESC, 0, 0x8000, 16, DESC_F_INDIRECT, 0);
            put_desc(r, 0x8000, 0, 0x9000, 16, DESC_F_INDIRECT, 0);
            offer(r, 4, 0);
        }),
        QueueError::IndirectMisplaced
    );
    assert_eq!(
        pop_err(|r, q| {
            q.indirect = true;
            put_desc(r, 0x8000, 0, 0, 1, DESC_F_NEXT, 0);
            put_desc(r, DESC, 0, 0x8000, 16, DESC_F_INDIRECT, 0);
            offer(r, 4, 0);
        }),
        QueueError::ChainLoop
    );
    assert_eq!(
        pop_err(|r, _| r.write_u16(AVAIL + 2, 5).unwrap()),
        QueueError::AvailIdx { last: 0, avail: 5 }
    );
    assert!(matches!(
        pop_err(|r, _| {
            put_desc(r, DESC, 0, 0, 1, DESC_F_NEXT, 1);
            offer(r, 4, 0);
            r.bytes.truncate(0x2000);
        }),
        QueueError::Ram(_)
    ));
}

#[test]
fn rewind_rimette_le_catene() {
    let mut r = ram();
    let mut q = queue(4);
    put_desc(&mut r, DESC, 0, 0x5000, 1, 0, 0);
    put_desc(&mut r, DESC, 1, 0x5000, 1, 0, 0);
    offer(&mut r, 4, 0);
    offer(&mut r, 4, 1);
    q.pop(&mut r).unwrap().unwrap();
    q.pop(&mut r).unwrap().unwrap();
    q.rewind(&mut r, 2).unwrap();
    assert_eq!(q.available(&r), Ok(2));
    assert_eq!(q.pop(&mut r).unwrap().unwrap().head, 0);
}

/// With EVENT_IDX too, the chains that were put back come again, through an
/// indirect table and around the end of the ring.
#[test]
fn rewind_with_event_idx_gives_the_same_chains() {
    let mut r = ram();
    let mut q = queue(4);
    q.event_idx = true;
    q.indirect = true;
    put_desc(&mut r, DESC, 0, 0x5000, 3, 0, 0);
    put_desc(&mut r, DESC, 1, 0x4000, 32, DESC_F_INDIRECT, 0);
    put_desc(&mut r, 0x4000, 0, 0x5000, 1, DESC_F_NEXT, 1);
    put_desc(&mut r, 0x4000, 1, 0x6000, 7, DESC_F_WRITE, 0);
    put_desc(&mut r, DESC, 2, 0x7000, 9, DESC_F_WRITE, 0);
    for head in [0, 0, 0, 1, 2] {
        if head == 0 && q.available(&r) == Ok(1) {
            q.pop(&mut r).unwrap().unwrap();
        }
        offer(&mut r, 4, head);
    }
    let waiting = q.available(&r).unwrap();
    assert_eq!(waiting, 3);
    let first: Vec<_> = (0..waiting).map(|_| q.pop(&mut r).unwrap().unwrap()).collect();
    assert_eq!(first[1].writable, [Buf { addr: 0x6000, len: 7 }]);
    let (after, bytes) = (q, r.bytes.clone());
    q.rewind(&mut r, waiting).unwrap();
    assert_eq!(r.read_u16(USED + 4 + 8 * 4), Ok(2));
    assert_eq!(q.available(&r), Ok(waiting));
    let again: Vec<_> = (0..waiting).map(|_| q.pop(&mut r).unwrap().unwrap()).collect();
    assert_eq!(again, first);
    assert_eq!((q, r.bytes.clone()), (after, bytes));
}
