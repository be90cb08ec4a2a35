//! The saved state of the machine: what was saved comes back, and what does not
//! fit is refused.
use vetro::net::{Sinkhole, SinkholeConfig, NetConfig, Stack};
use vetro::net::events_saved::read_event;
use vetro::platform::gic::Gic;
use vetro::platform::timer::GenericTimer;
use vetro::platform::virtio::blk::{VirtioBlk, VirtioBlkConfig};
use vetro::platform::virtio::disk::{BlockBackend, CowBackend, MemBackend};
use vetro::platform::virtio::disk_saved::SavedBlock;
use vetro::platform::virtio::input::{InputConfig, InputEvent, VirtioInput};
use vetro::platform::virtio::net::{QueueNet, VirtioNet};
use vetro::platform::virtio::queue::{Buf, DescChain};
use vetro::platform::virtio::vsock::{VirtioVsock, VsockConn, VsockState};
use vetro::snapshot::{Cursor, Fault, Field, Kind, Source, Subject};

#[test]
fn cursor_gives_each_field_once_and_by_its_kind() {
    let mut c = Cursor::new(vec![Field::U8(3), Field::Raw(vec![1, 2])]);
    assert_eq!(c.next(Kind::U16), Err(Fault::Missing));
    assert_eq!(c.next(Kind::U8), Ok(Field::U8(3)));
    assert_eq!(c.next(Kind::Raw(3)), Err(Fault::Missing));
    assert!(!c.is_done());
    assert_eq!(c.next(Kind::Raw(2)), Ok(Field::Raw(vec![1, 2])));
    assert!(c.is_done());
    assert_eq!(c.next(Kind::U8), Err(Fault::Missing));
}

#[test]
fn timer_comes_back() {
    let mut a = GenericTimer::new(62_500_000);
    a.set_cntp_ctl(1);
    a.set_cntp_cval(77);
    a.set_cntv_ctl(3);
    a.set_cntv_cval(1234);
    let fields = a.save();
    assert_eq!(fields.len(), 6);
    let mut b = GenericTimer::new(1);
    let mut r = Cursor::new(fields);
    b.restore(&mut r).unwrap();
    assert!(r.is_done());
    assert_eq!(a, b);
    let mut r = Cursor::new(a.save()[..5].to_vec());
    assert_eq!(b.restore(&mut r), Err(Fault::Missing));
    assert_eq!(a, b);
}

#[test]
fn timer_keeps_only_the_bits_that_can_be_written() {
    let mut fields = GenericTimer::new(1).save();
    fields[2] = Field::U64(7);
    let mut t = GenericTimer::new(1);
    t.restore(&mut Cursor::new(fields)).unwrap();
    assert_eq!(t.phys.ctl, 3);
}

#[test]
fn gic_comes_back() {
    let mut a = Gic::new();
    a.redist_write(0x14, 4, 0);
    a.dist_write(0, 4, 0x12);
    a.dist_write(0x84, 4, 0xFFFF_FFFF);
    a.dist_write(0x104, 4, 1 << 1);
    a.dist_write(0x400 + 33, 1, 0x80);
    a.set_irq_level(33, true);
    a.write_pmr(0xF0);
    a.write_igrpen1(1);
    assert_eq!(a.read_iar1(), 33);
    let fields = a.save();
    let mut b = Gic::new();
    let mut r = Cursor::new(fields.clone());
    b.restore(&mut r).unwrap();
    assert!(r.is_done());
    assert_eq!(b.save(), fields);
    assert_eq!(a.read_rpr(), b.read_rpr());
    assert_eq!(b.irq_state(33), a.irq_state(33));

    let n = fields.len();
    let mut other = fields.clone();
    other[0] = Field::Len(3);
    let e = b.restore(&mut Cursor::new(other)).unwrap_err();
    assert_eq!(e, Fault::Differs(Subject::Intids));
    assert_eq!(e.to_string(), "INTID del GIC");
    let mut other = fields.clone();
    other[4] = Field::U8(0x40);
    let e = b.restore(&mut Cursor::new(other)).unwrap_err();
    assert_eq!(e, Fault::Interrupt(0x40));
    assert_eq!(e.to_string(), "stato di un interrupt 0x40");
    // A state that no guest leads to is taken as it was saved.
    let mut c = Gic::new();
    let mut other = fields.clone();
    other[1] = Field::U8(0);
    assert_eq!(c.restore(&mut Cursor::new(other.clone())), Ok(()));
    assert!(c.is_sound());
    assert_eq!(c.save(), other);
    assert_eq!(b.restore(&mut Cursor::new(fields[..n - 1].to_vec())), Err(Fault::Missing));
    assert_eq!(b.save(), fields);
}

#[test]
fn memory_disk_comes_back() {
    let mut a = MemBackend::new(1024);
    a.write_sectors(1, &[7u8; 512]).unwrap();
    assert_eq!(a.image(), None);
    let mut b = MemBackend::new(1024);
    b.restore_state(&mut Cursor::new(a.save_state(0)), 99).unwrap();
    assert_eq!(a.data(), b.data());
    assert_eq!(MemBackend::new(512).restore_state(&mut Cursor::new(a.save_state(0)), 0), Err(Fault::Missing));
    let mut ro = MemBackend::read_only(MemBackend::new(1024));
    assert_eq!(
        ro.restore_state(&mut Cursor::new(a.save_state(0)), 0),
        Err(Fault::Differs(Subject::MemoryReadOnly))
    );
    assert_eq!(ro.image().unwrap().len(), 1024);
    assert_eq!(ro.save_state(5), vec![Field::U64(1), Field::U64(5)]);
    assert_eq!(ro.restore_state(&mut Cursor::new(vec![Field::U64(1), Field::U64(5)]), 5), Ok(()));
    assert_eq!(
        ro.restore_state(&mut Cursor::new(vec![Field::U64(1), Field::U64(5)]), 6),
        Err(Fault::Differs(Subject::MemoryDigest))
    );
}

#[test]
fn layer_comes_back_with_nothing_written_since() {
    let base = || MemBackend::read_only(MemBackend::new(3 * 4096 + 512));
    let mut a = CowBackend::new(base());
    a.write_sectors(8, &[1u8; 512]).unwrap();
    a.write_sectors(24, &[2u8; 512]).unwrap();
    assert_eq!(a.image().unwrap().len(), 3 * 4096 + 512);
    let fields = a.save_state(11);
    let mut b = CowBackend::new(base());
    b.write_sectors(0, &[9u8; 512]).unwrap();
    let mut r = Cursor::new(fields.clone());
    b.restore_state(&mut r, 11).unwrap();
    assert!(r.is_done());
    assert_eq!(b.clusters(), a.clusters());
    assert_eq!(b.take_dirty(), Vec::<u64>::new());
    assert_eq!(b.save_state(11), fields);
    let mut small = CowBackend::new(MemBackend::read_only(MemBackend::new(4096)));
    assert_eq!(
        small.restore_state(&mut Cursor::new(fields.clone()), 11),
        Err(Fault::Differs(Subject::DiskSize))
    );
    let mut other = fields.clone();
    other[2] = Field::U64(4);
    let e = b.restore_state(&mut Cursor::new(other), 11).unwrap_err();
    assert_eq!(e.to_string(), "cluster 4 del disco");
    let mut other = fields.clone();
    other[4] = Field::U64(1);
    assert_eq!(b.restore_state(&mut Cursor::new(other), 11), Err(Fault::Cluster(1)));
    assert_eq!(b.save_state(11), fields);
}

#[test]
fn block_device_comes_back() {
    let mut a = VirtioBlk::new(MemBackend::new(1024), VirtioBlkConfig::default());
    a.backend.write_sectors(0, &[5u8; 512]).unwrap();
    a.pending = Some(DescChain {
        head: 3,
        readable: vec![Buf { addr: 0x4000_0000, len: 16 }],
        writable: vec![Buf { addr: 0x4000_1000, len: 1 }],
    });
    let fields = a.save_state(0);
    let mut b = VirtioBlk::new(MemBackend::new(1024), VirtioBlkConfig::default());
    b.restore_state(&mut Cursor::new(fields.clone()), 0).unwrap();
    assert_eq!(b.pending, a.pending);
    assert_eq!(b.backend.data(), a.backend.data());
    let mut c = VirtioBlk::new(MemBackend::new(512), VirtioBlkConfig::default());
    assert_eq!(c.restore_state(&mut Cursor::new(fields.clone()), 0), Err(Fault::Differs(Subject::Sectors)));
    let ro = VirtioBlkConfig { read_only: true, ..VirtioBlkConfig::default() };
    let mut c = VirtioBlk::new(MemBackend::new(1024), ro);
    assert_eq!(
        c.restore_state(&mut Cursor::new(fields.clone()), 0),
        Err(Fault::Differs(Subject::DiskReadOnly))
    );
    let named = VirtioBlkConfig { serial: b"altro".to_vec(), ..VirtioBlkConfig::default() };
    let mut c = VirtioBlk::new(MemBackend::new(1024), named);
    assert_eq!(
        c.restore_state(&mut Cursor::new(fields.clone()), 0),
        Err(Fault::Differs(Subject::DiskSerial))
    );
    let mut other = fields;
    other[3] = Field::OptChain(Some((0, vec![(0, 1); 40_000], Vec::new())));
    assert_eq!(b.restore_state(&mut Cursor::new(other.clone()), 0), Ok(()));
    assert!(b.is_sound());
    assert_eq!(b.pending.as_ref().unwrap().readable.len(), 40_000);
    assert_eq!(b.save_state(0), other);
}

#[test]
fn network_device_comes_back() {
    let mac = [2, 0, 0, 0, 0, 1];
    let mut a = VirtioNet::new(QueueNet::default(), mac);
    a.backend.rx.push_back(vec![1, 2, 3]);
    a.backend.tx.push(vec![4]);
    a.set_link_up(false);
    a.pending_rx = Some(vec![9; 60]);
    a.rx_dropped = 8;
    let fields = a.save_state();
    let mut b = VirtioNet::new(QueueNet::default(), mac);
    let mut r = Cursor::new(fields.clone());
    b.restore_state(&mut r).unwrap();
    assert!(r.is_done());
    assert_eq!(b.save_state(), fields);
    assert!(!b.link_up());
    assert_eq!(b.rx_dropped(), 8);
    let mut c = VirtioNet::new(QueueNet::default(), [2, 0, 0, 0, 0, 2]);
    assert_eq!(c.restore_state(&mut Cursor::new(fields.clone())), Err(Fault::Differs(Subject::NetMac)));
    let offered = a.offer_mrg;
    let mut c = VirtioNet::new(QueueNet::default(), mac).with_mrg_rxbuf(!offered);
    assert_eq!(c.restore_state(&mut Cursor::new(fields)), Err(Fault::Differs(Subject::MergeOffer)));
}

#[test]
fn input_device_comes_back() {
    let mut a = VirtioInput::new(InputConfig::new("tasti"));
    a.active = true;
    a.select = 3;
    a.leds = 5;
    a.pending.push_back(InputEvent::new(1, 30, 1));
    a.pending.push_back(InputEvent::syn());
    a.status.push(InputEvent::new(0x11, 0, -1));
    assert_eq!(
        a.config_fields(),
        vec![Field::Count(1), Field::U8(1), Field::U8(0), Field::Bytes(b"tasti\0".to_vec())]
    );
    let fields = a.save_state(42);
    let mut b = VirtioInput::new(InputConfig::new("tasti"));
    let mut r = Cursor::new(fields.clone());
    b.restore_state(&mut r, 42).unwrap();
    assert!(r.is_done());
    assert_eq!(b.save_state(42), fields);
    assert_eq!(b.pending, a.pending);
    assert_eq!(b.status, a.status);
    let e = b.restore_state(&mut Cursor::new(fields), 43).unwrap_err();
    assert_eq!(e.to_string(), "configurazione di virtio-input");
}

#[test]
fn vsock_device_comes_back() {
    let mut a = VirtioVsock::new(3);
    a.listen(1024).unwrap();
    let c = a.connect(5000);
    a.send(c, b"ciao").unwrap();
    let fields = a.save_state();
    let mut b = VirtioVsock::new(3);
    b.listen(7).unwrap();
    let mut r = Cursor::new(fields.clone());
    b.restore_state(&mut r).unwrap();
    assert!(r.is_done());
    assert_eq!(b.save_state(), fields);
    assert_eq!(b.connections(), vec![c]);
    assert_eq!(b.state(c), Some(VsockState::Connecting));
    assert_eq!(b.unsent(c), 4);
    let mut other = VirtioVsock::new(4);
    assert_eq!(other.restore_state(&mut Cursor::new(fields.clone())), Err(Fault::Differs(Subject::GuestCid)));
    let at = fields.iter().position(|f| matches!(f, Field::U8(_))).unwrap();
    let mut bad = fields;
    bad[at] = Field::U8(9);
    let e = b.restore_state(&mut Cursor::new(bad)).unwrap_err();
    assert_eq!(e.to_string(), "stato vsock 9");
    assert_eq!(VsockConn::from_key(c.to_key()), c);
}

#[test]
fn events_that_do_not_exist_are_refused() {
    let refused = |fields: Vec<Field>| read_event(&mut Cursor::new(fields)).unwrap_err();
    assert_eq!(refused(vec![Field::U64(0), Field::U8(200)]).to_string(), "evento di rete 200");
    assert_eq!(refused(vec![Field::U64(0)]), Fault::Missing);
}

#[test]
fn faults_in_words() {
    assert_eq!(Fault::Missing.to_string(), "campo mancante");
    assert_eq!(Fault::Direction(2).to_string(), "verso 2");
    assert_eq!(Fault::Reason(9).to_string(), "motivo di chiusura 9");
    assert_eq!(Fault::Dhcp(3).to_string(), "messaggio DHCP 3");
    assert_eq!(Fault::TcpState(12).to_string(), "stato TCP 12");
    assert_eq!(Fault::WrongKey { id: 4, key: 5 }.to_string(), "connessione 4 sotto la chiave 5");
    assert_eq!(Fault::Differs(Subject::DiskSerial).to_string(), "identificativo del disco diverso");
}

/// A stack whose saved fields are cut short anywhere is not restored.
#[test]
fn stack_cut_short_is_refused() {
    let new = || Stack::new(NetConfig::default(), Sinkhole::new(SinkholeConfig::default()));
    let fields = new().save();
    for n in 0..fields.len() {
        assert_eq!(new().restore(&mut Cursor::new(fields[..n].to_vec())), Err(Fault::Missing));
    }
    assert_eq!(new().restore(&mut Cursor::new(fields)), Ok(()));
}
