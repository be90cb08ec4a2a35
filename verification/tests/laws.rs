//! What holds in general, on concrete values.
use vetro::net::names::NameTable;
use vetro::net::wire::{Arp, TcpOut};
use vetro::net::{dhcp, dns, wire};
use vetro::net::{Flow, Ipv4Addr, Mac, Sinkhole, SinkholeConfig, SocketAddrV4, TcpStatus, Upstream, VirtualTime};
use vetro::platform::virtio::disk::{BlockBackend, BlockError, CowBackend, MemBackend};
use vetro::platform::virtio::queue::{need_event, Buf, DescChain, QueueError, Virtqueue};
use vetro::platform::fdt::FdtBuilder;
use vetro::platform::virtio::ram::{ram_holds, read_u16, read_u32, write_u16, write_u32, GuestRam, RamError, VecRam};
use vetro::platform::virtio::vsock::{Hdr, VsockConn};
use vetro::platform::virtio::InputEvent;
use vetro::snapshot::{Cursor, Field};
use vetro::table::Table;
use vetro::text::{push_decimal, push_decimal_padded, push_hexadecimal};

const A: Ipv4Addr = Ipv4Addr { bits: 0x0a00_0202 };
const B: Ipv4Addr = Ipv4Addr { bits: 0x0a00_020f };

#[test]
fn table_holds_each_key_once_in_order() {
    let mut t: Table<u32> = Table::new();
    for (k, v) in [(5, 50), (1, 10), (9, 90), (5, 55)] {
        t.insert(k, v);
    }
    assert_eq!(t.entries, vec![(1, 10), (5, 55), (9, 90)]);
    assert_eq!(t.get(5), Some(&55));
    assert_eq!(t.remove(5), Some(55));
    assert_eq!(t.remove(5), None);
    assert_eq!(t.get(5), None);
    assert_eq!(t.get(9), Some(&90));
}

#[test]
fn names_are_found_again_by_their_bytes() {
    let mut n = NameTable::new();
    n.insert("b.it".to_string(), A);
    n.insert("a.it".to_string(), B);
    n.insert("b.it".to_string(), B);
    assert_eq!(n.len(), 2);
    assert_eq!(n.get(&"b.it".to_string()), Some(B));
    assert_eq!(n.get(&"c.it".to_string()), None);
    assert_eq!(n.entries[0].0, "a.it");
}

#[test]
fn numbers_in_text() {
    let mut s = String::new();
    push_decimal(&mut s, 0);
    s.push(' ');
    push_decimal(&mut s, u64::MAX);
    s.push(' ');
    push_decimal_padded(&mut s, 42, ' ', 6);
    s.push(' ');
    push_hexadecimal(&mut s, 0xDEAD_BEEF);
    assert_eq!(s, "0 18446744073709551615     42 deadbeef");
}

#[test]
fn frames_and_packets_are_read_back() {
    let (m, g) = (Mac::new([2, 0, 0, 0, 0, 1]), Mac::new([2, 0, 0, 0, 0, 2]));
    let f = wire::build_eth(m, g, wire::ETHERTYPE_ARP, b"dati");
    let (h, p) = wire::parse_eth(&f).unwrap();
    assert_eq!((h.dst, h.src, h.ethertype, p), (m, g, wire::ETHERTYPE_ARP, &b"dati"[..]));
    assert!(wire::parse_eth(&f[..13]).is_none());

    let arp = Arp { op: wire::ARP_REQUEST, sender_mac: m, sender_ip: A, target_mac: g, target_ip: B };
    assert_eq!(wire::parse_arp(&wire::build_arp(&arp)), Some(arp));

    let udp = wire::build_udp(A, 53, B, 4000, b"abc");
    let (h, p) = wire::parse_udp(A, B, &udp).unwrap();
    assert_eq!((h.src_port, h.dst_port, h.checksum_ok, p), (53, 4000, true, &b"abc"[..]));

    let icmp = wire::build_icmp(8, 0, [0, 1, 0, 2], b"ping");
    assert_eq!(wire::checksum(&icmp), 0);

    let seg = wire::build_tcp(&TcpOut {
        src: A,
        src_port: 80,
        dst: B,
        dst_port: 4000,
        seq: 1,
        ack: 2,
        flags: wire::TCP_SYN | wire::TCP_ACK,
        window: 1000,
        mss: Some(1460),
        payload: b"xyz",
    });
    let (h, p) = wire::parse_tcp(A, B, &seg).unwrap();
    assert_eq!((h.seq, h.ack, h.window, h.mss, p), (1, 2, 1000, Some(1460), &b"xyz"[..]));
    assert!(h.checksum_ok && h.has(wire::TCP_SYN));
}

#[test]
fn dns_messages_are_read_back() {
    let q = dns::parse_query(&dns::build_query(7, "esempio.it", dns::TYPE_A)).unwrap();
    assert_eq!((q.id, q.name.as_str(), q.qtype), (7, "esempio.it", dns::TYPE_A));
    let r = dns::parse_response(&dns::build_response(&q, 0, &[A], 60)).unwrap();
    assert_eq!((r.id, r.name.as_str(), r.rcode, r.addrs), (7, "esempio.it", 0, vec![A]));
}

/// A host name that is not valid UTF-8 is kept with replacement characters.
#[test]
fn dhcp_host_name_may_be_broken() {
    let mut p = vec![0u8; 236];
    p[0] = 1;
    p[1] = 1;
    p[2] = 6;
    p.extend_from_slice(&[99, 130, 83, 99]);
    p.extend_from_slice(&[53, 1, dhcp::DISCOVER]);
    p.extend_from_slice(&[12, 3, b'a', 0xFF, b'b']);
    p.push(255);
    let m = dhcp::parse(&p).unwrap();
    assert_eq!(m.hostname.as_deref(), Some("a\u{fffd}b"));
    p[1] = 2;
    assert!(dhcp::parse(&p).is_none());
}

#[test]
fn sinkhole_gives_each_name_its_address() {
    let cfg = SinkholeConfig::default();
    let server = cfg.dns_server;
    let mut s = Sinkhole::new(cfg);
    let t = VirtualTime::from_millis(1);
    let dns_flow = Flow { guest: SocketAddrV4::new(B, 5000), remote: server };
    let ask = |s: &mut Sinkhole, name: &str| {
        s.udp_send(t, 1, dns_flow, &dns::build_query(1, name, dns::TYPE_A));
        let (_, answer) = s.udp_recv(t).unwrap();
        dns::parse_response(&answer).unwrap().addrs[0]
    };
    let a = ask(&mut s, "uno.it");
    let b = ask(&mut s, "due.it");
    assert_ne!(a, b);
    assert_eq!(ask(&mut s, "uno.it"), a);
    assert_eq!(s.hostname(a), Some("uno.it"));
    assert_eq!(s.hostname(b), Some("due.it"));
    let flow = Flow { guest: SocketAddrV4::new(B, 4000), remote: SocketAddrV4::new(b, 443) };
    s.tcp_open(t, 2, flow);
    assert_eq!(s.tcp_status(t, 2), TcpStatus::Connected);
    assert_eq!(s.tcp_write(t, 2, b"ab"), 2);
    assert_eq!(s.tcp_write(t, 2, b"cd"), 2);
    let rec = s.tcp_connection(2).unwrap();
    assert_eq!(rec.hostname.as_deref(), Some("due.it"));
    assert_eq!(rec.from_guest, b"abcd");
}

#[test]
fn ram_reads_what_was_written() {
    let mut ram = VecRam::new(0x1000, 64);
    ram.write(0x1010, &[1, 2, 3]).unwrap();
    let mut b = [0u8; 5];
    ram.read(0x100F, &mut b).unwrap();
    assert_eq!(b, [0, 1, 2, 3, 0]);
    assert_eq!(ram.write(0x103F, &[9, 9]), Err(RamError { addr: 0x103F, len: 2 }));
    ram.read(0x103C, &mut b[..4]).unwrap();
    assert_eq!(&b[..4], &[0, 0, 0, 0]);
}

#[test]
fn disks_read_what_was_written() {
    let mut d = CowBackend::new(MemBackend::new(3 * 4096));
    let data: Vec<u8> = (0..1024u32).map(|i| i as u8).collect();
    d.write_sectors(7, &data).unwrap();
    let mut back = vec![0u8; 1024];
    d.read_sectors(7, &mut back).unwrap();
    assert_eq!(back, data);
    assert!(d.base().data().iter().all(|&b| b == 0));
    assert_eq!(d.read_sectors(24, &mut back), Err(BlockError::OutOfRange));
    assert_eq!(d.read_sectors(0, &mut back[..100]), Err(BlockError::OutOfRange));
}

const RING: u64 = 0x1000;

/// A queue of four with one available chain of one writable buffer.
fn queue(ram: &mut VecRam) -> Virtqueue {
    let mut q = Virtqueue::new(4);
    q.set_desc(RING);
    q.set_driver(RING + 0x100);
    q.set_device(RING + 0x200);
    assert!(q.set_ready(true));
    descriptor(ram, 2, RING + 0x300, 16, 2, 0);
    write_u16(ram, RING + 0x100, 4, 2).unwrap();
    write_u16(ram, RING + 0x100, 2, 1).unwrap();
    q
}

fn descriptor(ram: &mut VecRam, i: u64, addr: u64, len: u32, flags: u16, next: u16) {
    let at = RING + 16 * i;
    ram.write(at, &addr.to_le_bytes()).unwrap();
    write_u32(ram, at, 8, len).unwrap();
    write_u16(ram, at, 12, flags).unwrap();
    write_u16(ram, at, 14, next).unwrap();
}

#[test]
fn chain_that_is_put_back_comes_again() {
    let mut ram = VecRam::new(RING, 0x400);
    let mut q = queue(&mut ram);
    let before = q;
    let want = DescChain { head: 2, readable: vec![], writable: vec![Buf { addr: RING + 0x300, len: 16 }] };
    assert_eq!(q.pop(&mut ram), Ok(Some(want.clone())));
    assert_eq!(q.pop(&mut ram), Ok(None));
    q.rewind(&mut ram, 1).unwrap();
    assert_eq!(q, before);
    assert_eq!(q.pop(&mut ram), Ok(Some(want)));
    q.push_used(&mut ram, 2, 11).unwrap();
    assert_eq!(read_u16(&ram, RING + 0x200, 2), Ok(1));
    assert_eq!(read_u32(&ram, RING + 0x200, 4), Ok(2));
    assert_eq!(read_u32(&ram, RING + 0x200, 8), Ok(11));
    assert_eq!(q.should_notify(&ram), Ok(true));
    assert_eq!(q.should_notify(&ram), Ok(false));
}

#[test]
fn chains_that_break_the_rules_are_refused() {
    let mut ram = VecRam::new(RING, 0x400);
    let mut q = queue(&mut ram);
    descriptor(&mut ram, 2, RING + 0x300, 16, 1, 2);
    assert_eq!(q.pop(&mut ram), Err(QueueError::ChainLoop));
    descriptor(&mut ram, 2, RING + 0x300, 16, 4, 0);
    assert_eq!(q.pop(&mut ram), Err(QueueError::IndirectNotNegotiated));
    write_u16(&mut ram, RING + 0x100, 2, 6).unwrap();
    assert_eq!(q.pop(&mut ram), Err(QueueError::AvailIdx { last: 0, avail: 6 }));
    assert!(need_event(3, 5, 3) && !need_event(5, 5, 3));
}

#[test]
fn headers_and_events_are_read_back() {
    let h = Hdr {
        src_cid: 2,
        dst_cid: 3,
        src_port: 1024,
        dst_port: 5000,
        len: 7,
        ty: 1,
        op: 5,
        flags: 0,
        buf_alloc: 65_536,
        fwd_cnt: 9,
    };
    let b: [u8; 44] = h.to_bytes().try_into().unwrap();
    assert_eq!(Hdr::parse(&b), h);
    let c = VsockConn { host_port: 7, guest_port: u32::MAX };
    assert_eq!(VsockConn::from_key(c.to_key()), c);
    let e = InputEvent::new(3, 0, -5);
    let b: [u8; 8] = e.to_bytes().try_into().unwrap();
    assert_eq!(InputEvent::from_bytes(&b), e);
}

#[test]
fn fields_come_back_in_order() {
    let fields = vec![Field::Count(1), Field::Text("uno".to_string()), Field::OptU8(None)];
    let c = Cursor::new(fields.clone());
    assert_eq!(c.fields, fields);
    assert!(!c.is_done());
}

#[test]
fn chains_that_are_put_back_come_again() {
    let mut ram = VecRam::new(RING, 0x400);
    let mut q = queue(&mut ram);
    for i in [0u64, 1, 3] {
        descriptor(&mut ram, i, RING + 0x300 + 16 * i, 8, 2, 0);
    }
    write_u16(&mut ram, RING + 0x100, 6, 0).unwrap();
    write_u16(&mut ram, RING + 0x100, 8, 3).unwrap();
    write_u16(&mut ram, RING + 0x100, 2, 3).unwrap();
    let before = (q, ram.bytes.clone());
    let heads: Vec<u16> = (0..3).map(|_| q.pop(&mut ram).unwrap().unwrap().head).collect();
    assert_eq!(heads, [2, 0, 3]);
    assert_eq!(q.pop(&mut ram), Ok(None));
    q.rewind(&mut ram, 3).unwrap();
    assert_eq!((q, ram.bytes.clone()), before);
    assert_eq!(q.pop(&mut ram).unwrap().unwrap().head, 2);
}

/// A write through the layer changes its own bytes, also in a cluster that is
/// written in part and in the short last one.
#[test]
fn layer_keeps_the_bytes_around_a_write() {
    let image: Vec<u8> = (0..2 * 4096 + 1024u32).map(|i| (i / 7) as u8).collect();
    let mut d = CowBackend::new(MemBackend::from_vec(image.clone()));
    let mut want = image.clone();
    for (sector, n, fill) in [(1u64, 512usize, 1u8), (7, 1024, 2), (17, 512, 3)] {
        d.write_sectors(sector, &vec![fill; n]).unwrap();
        let at = sector as usize * 512;
        want[at..at + n].fill(fill);
        let mut all = vec![0u8; want.len()];
        d.read_sectors(0, &mut all).unwrap();
        assert_eq!(all, want);
    }
    assert_eq!(d.base().data(), &image[..]);
    assert_eq!(d.write_sectors(18, &[0; 512]), Err(BlockError::OutOfRange));
}

#[test]
fn fake_addresses_follow_the_base() {
    let cfg = SinkholeConfig::default();
    let (server, base) = (cfg.dns_server, cfg.fake_base.bits);
    let mut s = Sinkhole::new(cfg);
    let t = VirtualTime::from_millis(1);
    let flow = Flow { guest: SocketAddrV4::new(B, 5000), remote: server };
    for (i, name) in ["c.it", "a.it", "b.it", "a.it"].iter().enumerate() {
        s.udp_send(t, 1, flow, &dns::build_query(1, name, dns::TYPE_A));
        let want = [1, 2, 3, 2][i];
        assert_eq!(s.fake_addr(&name.to_string()), Some(Ipv4Addr { bits: base + want }));
    }
    assert_eq!(s.fake_addr(&"c.it".to_string()), Some(Ipv4Addr { bits: base + 1 }));
}

#[test]
fn dns_question_is_kept_whole() {
    let long = format!("{}.{}.{}.{}", "A".repeat(63), "b".repeat(63), "C".repeat(63), "d".repeat(63));
    let msg = dns::build_query(9, &long, dns::TYPE_A);
    let q = dns::parse_query(&msg).unwrap();
    assert_eq!(q.name, long.to_lowercase());
    assert_eq!(q.question, &msg[12..]);
    assert!(dns::parse_query(&dns::build_response(&q, 0, &[A], 1)).is_none());
}

#[test]
fn ram_is_told_from_what_is_none() {
    let ram = VecRam::new(0x1000, 3 * 4096);
    assert!(ram_holds(&ram, 0x1000, 3 * 4096));
    assert!(ram_holds(&ram, 0x1234, 4097));
    assert!(!ram_holds(&ram, 0x1000, 3 * 4096 + 1));
    assert!(!ram_holds(&ram, 0xFFF, 2));
    assert!(!ram_holds(&ram, u64::MAX, 2));
    assert!(ram_holds(&ram, 0, 0));
}

#[test]
fn blob_holds_each_name_once() {
    let mut b = FdtBuilder::new();
    b.begin_node("").prop_bytes("due", &[1]).prop_bytes("uno", &[2, 3]).prop_bytes("due", &[]).end_node();
    let out = b.finish().unwrap();
    let mut want: Vec<u8> = Vec::new();
    want.extend_from_slice(&[0, 0, 0, 1, 0, 0, 0, 0]);
    want.extend_from_slice(&[0, 0, 0, 3, 0, 0, 0, 1, 0, 0, 0, 0, 1, 0, 0, 0]);
    want.extend_from_slice(&[0, 0, 0, 3, 0, 0, 0, 2, 0, 0, 0, 4, 2, 3, 0, 0]);
    want.extend_from_slice(&[0, 0, 0, 3, 0, 0, 0, 0, 0, 0, 0, 0]);
    want.extend_from_slice(&[0, 0, 0, 2, 0, 0, 0, 9]);
    want.extend_from_slice(b"due\0uno\0");
    assert_eq!(&out[56..], &want[..]);
}

#[test]
fn resolved_names_keep_their_addresses() {
    let mut s = Sinkhole::new(SinkholeConfig::default());
    let a = s.resolve(&"uno.it".to_string());
    let b = s.resolve(&"due.it".to_string());
    assert_eq!((a, b), (Ipv4Addr::new(198, 18, 0, 1), Ipv4Addr::new(198, 18, 0, 2)));
    assert_eq!(s.resolve(&"uno.it".to_string()), a);
    assert_eq!(s.fake_addr(&"due.it".to_string()), Some(b));
    assert_eq!(s.hostname(a), Some("uno.it"));
    assert_eq!(s.hostname(b), Some("due.it"));
}
