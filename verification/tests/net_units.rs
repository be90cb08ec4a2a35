//! The wire formats, the DNS messages, the event log and the TCP timers.

use vetro::net::dns::{build_query, build_response, parse_query, parse_response, CLASS_IN, HEADER_LEN, RCODE_NOERROR, TYPE_A};
use vetro::net::tcp::{seq_le, seq_lt, TcpConn, RTO_MIN};
use vetro::net::wire::{build_ipv4, build_tcp, checksum, parse_ipv4, parse_tcp, parse_udp, TcpHeader, TcpOut, PROTO_UDP, TCP_SYN};
use vetro::net::{DhcpMessage, EventKind, Flow, Ipv4Addr, Mac, NetEvent, SocketAddrV4, VirtualTime};

#[test]
fn checksum_rfc1071_example() {
    // Somma 0xddf2, checksum 0x220d.
    let data = [0x00, 0x01, 0xf2, 0x03, 0xf4, 0xf5, 0xf6, 0xf7];
    assert_eq!(checksum(&data), 0x220d);
}

#[test]
fn ipv4_roundtrip_and_checksum() {
    let a = Ipv4Addr::new(10, 0, 2, 2);
    let b = Ipv4Addr::new(10, 0, 2, 15);
    let p = build_ipv4(a, b, PROTO_UDP, 7, b"xyz");
    let (h, payload) = parse_ipv4(&p).unwrap();
    assert!(h.checksum_ok);
    assert_eq!((h.src, h.dst, h.proto, h.ident, h.fragment), (a, b, PROTO_UDP, 7, false));
    assert_eq!(payload, b"xyz");
}

#[test]
fn tcp_options_parse_and_truncated_inputs() {
    let a = Ipv4Addr::new(1, 2, 3, 4);
    let b = Ipv4Addr::new(5, 6, 7, 8);
    let s = build_tcp(&TcpOut {
        src: a,
        src_port: 1,
        dst: b,
        dst_port: 2,
        seq: 3,
        ack: 4,
        flags: TCP_SYN,
        window: 5,
        mss: Some(1400),
        payload: b"",
    });
    let (h, _) = parse_tcp(a, b, &s).unwrap();
    assert_eq!(h.mss, Some(1400));
    assert!(h.checksum_ok);
    for n in 0..s.len() {
        // Nessun panic su input troncati.
        let _ = parse_tcp(a, b, &s[..n]);
        let _ = parse_ipv4(&s[..n]);
        let _ = parse_udp(a, b, &s[..n]);
    }
}

#[test]
fn query_response_roundtrip() {
    let raw = build_query(0x1234, "Example.COM", TYPE_A);
    let q = parse_query(&raw).unwrap();
    assert_eq!((q.id, q.name.as_str(), q.qtype, q.qclass), (0x1234, "example.com", TYPE_A, CLASS_IN));
    let addr = Ipv4Addr::new(198, 18, 0, 1);
    let resp = build_response(&q, RCODE_NOERROR, &[addr], 60);
    let r = parse_response(&resp).unwrap();
    assert_eq!((r.id, r.rcode, r.name.as_str(), r.qtype), (0x1234, 0, "example.com", TYPE_A));
    assert_eq!(r.addrs, vec![addr]);
    assert!(parse_query(&resp).is_none());
}

#[test]
fn compression_loop_is_rejected() {
    let mut m = build_query(1, "a", TYPE_A);
    // Sostituisce il nome con un puntatore a se stesso.
    m.truncate(HEADER_LEN);
    m.extend_from_slice(&[0xc0, 0x0c, 0, 1, 0, 1]);
    assert!(parse_query(&m).is_none());
    for n in 0..m.len() {
        let _ = parse_response(&m[..n]);
    }
}

#[test]
fn righe_leggibili() {
    let flow = Flow {
        guest: SocketAddrV4::new(Ipv4Addr::new(10, 0, 2, 15), 40000),
        remote: SocketAddrV4::new(Ipv4Addr::new(198, 18, 0, 1), 80),
    };
    let e = |at, kind| NetEvent { at: VirtualTime(at), kind }.to_string();
    assert_eq!(
        e(1_500_000, EventKind::TcpOpen { id: 3, flow }),
        "[     1.500000] tcp 3 syn 10.0.2.15:40000 -> 198.18.0.1:80"
    );
    let mac = Mac::new([0x52, 0x54, 0, 0x12, 0x34, 0x56]);
    let ip = Ipv4Addr::new(10, 0, 2, 15);
    assert_eq!(
        e(7, EventKind::Dhcp { message: DhcpMessage::Ack, mac, ip, hostname: None }),
        "[     0.000007] dhcp Ack 10.0.2.15 52:54:00:12:34:56"
    );
    let answer = EventKind::DnsAnswer {
        id: 2,
        txid: 0x1234,
        name: "vetro.example".into(),
        qtype: 1,
        rcode: 0,
        addrs: vec![Ipv4Addr::new(198, 18, 0, 1)],
    };
    assert_eq!(
        e(0, answer),
        "[     0.000000] dns 2 risposta vetro.example tipo 1 rcode 0 (id 0x1234) 198.18.0.1"
    );
}

fn conn() -> TcpConn {
    let syn = TcpHeader {
        src_port: 1,
        dst_port: 2,
        seq: 0,
        ack: 0,
        flags: TCP_SYN,
        window: 1000,
        mss: None,
        checksum_ok: true,
    };
    let a = SocketAddrV4::new(Ipv4Addr::new(127, 0, 0, 1), 1);
    TcpConn::new(1, Flow { guest: a, remote: a }, &syn, 0, 1460, VirtualTime(0), 1)
}

#[test]
fn rto_follows_rfc6298() {
    let mut c = conn();
    assert_eq!((c.t.rto, c.t.mss), (1_000_000, 536), "RTO iniziale 1 s, MSS predefinito 536");
    // Primo campione R: SRTT = R, RTTVAR = R/2, RTO = SRTT + 4·RTTVAR.
    c.t.rtt_update(100_000);
    assert_eq!((c.t.srtt, c.t.rttvar, c.t.rto), (Some(100_000), 50_000, 300_000));
    // Poi RTTVAR = 3/4·RTTVAR + 1/4·|SRTT - R|, SRTT = 7/8·SRTT + 1/8·R.
    c.t.rtt_update(200_000);
    assert_eq!((c.t.srtt, c.t.rttvar), (Some(112_500), 62_500));
    assert_eq!(c.t.rto, 362_500);
    // Minimo 200 ms.
    for _ in 0..50 {
        c.t.rtt_update(10);
    }
    assert_eq!(c.t.rto, RTO_MIN);
}

#[test]
fn sequence_comparison_wraps() {
    assert!(seq_lt(u32::MAX, 0));
    assert!(seq_lt(0xffff_fff0, 0x10));
    assert!(!seq_lt(0x10, 0xffff_fff0));
    assert!(seq_le(5, 5));
}
