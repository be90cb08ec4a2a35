//! The stack as a guest and a host see it: the gateway (DHCP, ARP, ICMP, DNS,
//! UDP), TCP with the sinkhole, the relay, and the host's own connections.
//!
//! Every frame that leaves the stack goes through [`validate`], which has
//! `smoltcp::wire` parse it and computes the checksums once more.
#![allow(dead_code)]

use std::collections::{BTreeMap, VecDeque};

use smoltcp::phy::ChecksumCapabilities;
use smoltcp::wire::{
    ArpOperation, ArpPacket, ArpRepr, DhcpMessageType, DhcpPacket, DhcpRepr, DnsPacket, DnsRcode,
    EthernetAddress, EthernetFrame, EthernetProtocol, Icmpv4Packet, IpAddress, IpProtocol, Ipv4Address,
    Ipv4Packet, TcpPacket, TcpRepr, UdpPacket,
};
use vetro::net::dns;
use vetro::net::dns::{RCODE_NXDOMAIN, TYPE_A, TYPE_AAAA};
use vetro::net::hostfwd::HOST_BUFFER;
use vetro::net::wire;
use vetro::net::wire::TcpOut;
use vetro::snapshot::{Cursor, Field};
use vetro::net::{
    CloseReason, ConnId, DhcpMessage, Direction, EventKind, Flow, HostConnState, Ipv4Addr, Mac, MemoryRelay,
    NetConfig, NetEvent, Relay, RelayMessage, RelayUpstream, Sinkhole, SinkholeConfig, SocketAddrV4, Stack,
    TcpRead, TcpReply, TcpStatus, Upstream, VirtualTime,
};

pub const GUEST_MAC: Mac = Mac { b0: 0x52, b1: 0x54, b2: 0x00, b3: 0x12, b4: 0x34, b5: 0x56 };
pub const GW_MAC: Mac = Mac { b0: 0x52, b1: 0x55, b2: 0x0a, b3: 0x00, b4: 0x02, b5: 0x02 };
pub const GUEST_IP: Ipv4Addr = Ipv4Addr { bits: 0x0a00_020f };
pub const GW_IP: Ipv4Addr = Ipv4Addr { bits: 0x0a00_0202 };
pub const DNS_IP: Ipv4Addr = Ipv4Addr { bits: 0x0a00_0203 };

pub fn t(ms: u64) -> VirtualTime {
    VirtualTime::from_millis(ms)
}

/// Checksum di Internet scritto di nuovo, senza usare il crate.
pub fn inet_sum(parts: &[&[u8]]) -> u16 {
    let mut bytes = Vec::new();
    for p in parts {
        bytes.extend_from_slice(p);
    }
    if bytes.len() % 2 == 1 {
        bytes.push(0);
    }
    let mut sum: u64 = bytes.chunks(2).map(|c| u64::from(c[0]) << 8 | u64::from(c[1])).sum();
    while sum >> 16 != 0 {
        sum = (sum & 0xffff) + (sum >> 16);
    }
    !(sum as u16)
}

fn pseudo(src: Ipv4Addr, dst: Ipv4Addr, proto: u8, len: usize) -> Vec<u8> {
    let mut p = Vec::new();
    p.extend_from_slice(&src.octets());
    p.extend_from_slice(&dst.octets());
    p.push(0);
    p.push(proto);
    p.extend_from_slice(&(len as u16).to_be_bytes());
    p
}

/// Frame prodotto dallo stack, già validato.
#[derive(Clone, Debug, PartialEq, Eq)]
pub enum Out {
    Arp { op: u16, sender_mac: Mac, sender_ip: Ipv4Addr, target_mac: Mac, target_ip: Ipv4Addr },
    Tcp(TcpSeg),
    Udp { eth_dst: Mac, src: SocketAddrV4, dst: SocketAddrV4, payload: Vec<u8> },
    Icmp { src: Ipv4Addr, dst: Ipv4Addr, ty: u8, code: u8, rest: [u8; 4], data: Vec<u8> },
}

#[derive(Clone, Debug, PartialEq, Eq)]
pub struct TcpSeg {
    pub src: SocketAddrV4,
    pub dst: SocketAddrV4,
    pub seq: u32,
    pub ack: Option<u32>,
    pub syn: bool,
    pub fin: bool,
    pub rst: bool,
    pub window: u16,
    pub mss: Option<u16>,
    pub payload: Vec<u8>,
}

impl Out {
    pub fn tcp(self) -> TcpSeg {
        match self {
            Out::Tcp(s) => s,
            other => panic!("atteso TCP, arrivato {other:?}"),
        }
    }
}

fn mac(a: EthernetAddress) -> Mac {
    Mac::new(a.0)
}

fn addr(a: Ipv4Address) -> Ipv4Addr {
    let o = a.octets();
    Ipv4Addr::new(o[0], o[1], o[2], o[3])
}

fn outer(a: Ipv4Addr) -> Ipv4Address {
    let o = a.octets();
    Ipv4Address::new(o[0], o[1], o[2], o[3])
}

/// Analizza e valida un frame dello stack con smoltcp e con i checksum
/// ricalcolati qui. Va in panic su qualsiasi incoerenza.
pub fn validate(frame: &[u8]) -> Out {
    let caps = ChecksumCapabilities::default();
    let eth = EthernetFrame::new_checked(frame).expect("Ethernet valido");
    assert_eq!(mac(eth.src_addr()), GW_MAC, "sorgente Ethernet del gateway");
    match eth.ethertype() {
        EthernetProtocol::Arp => {
            let p = ArpPacket::new_checked(eth.payload()).expect("ARP valido");
            let ArpRepr::EthernetIpv4 {
                operation,
                source_hardware_addr,
                source_protocol_addr,
                target_hardware_addr,
                target_protocol_addr,
            } = ArpRepr::parse(&p).expect("ARP analizzabile")
            else {
                panic!("ARP non Ethernet/IPv4")
            };
            let op = match operation {
                ArpOperation::Request => 1,
                ArpOperation::Reply => 2,
                ArpOperation::Unknown(x) => x,
            };
            assert_eq!(mac(eth.dst_addr()), mac(target_hardware_addr));
            Out::Arp {
                op,
                sender_mac: mac(source_hardware_addr),
                sender_ip: addr(source_protocol_addr),
                target_mac: mac(target_hardware_addr),
                target_ip: addr(target_protocol_addr),
            }
        }
        EthernetProtocol::Ipv4 => {
            let ip = Ipv4Packet::new_checked(eth.payload()).expect("IPv4 valido");
            assert!(ip.verify_checksum(), "checksum IPv4 (smoltcp)");
            let hl = usize::from(ip.header_len());
            assert_eq!(inet_sum(&[&eth.payload()[..hl]]), 0, "checksum IPv4 (ricalcolato)");
            assert_eq!(usize::from(ip.total_len()), eth.payload().len(), "niente padding né troncamenti");
            assert!(ip.dont_frag());
            assert_eq!(ip.hop_limit(), 64);
            let (isrc, idst) = (IpAddress::Ipv4(ip.src_addr()), IpAddress::Ipv4(ip.dst_addr()));
            let (src, dst) = (addr(ip.src_addr()), addr(ip.dst_addr()));
            let payload = ip.payload();
            match ip.next_header() {
                IpProtocol::Tcp => {
                    let p = TcpPacket::new_checked(payload).expect("TCP valido");
                    assert!(p.verify_checksum(&isrc, &idst), "checksum TCP (smoltcp)");
                    assert_eq!(
                        inet_sum(&[&pseudo(src, dst, 6, payload.len()), payload]),
                        0,
                        "checksum TCP (ricalcolato)"
                    );
                    let r = TcpRepr::parse(&p, &isrc, &idst, &caps).expect("TCP analizzabile");
                    assert_eq!(mac(eth.dst_addr()), GUEST_MAC);
                    Out::Tcp(TcpSeg {
                        src: SocketAddrV4::new(src, p.src_port()),
                        dst: SocketAddrV4::new(dst, p.dst_port()),
                        seq: p.seq_number().0 as u32,
                        ack: p.ack().then_some(p.ack_number().0 as u32),
                        syn: p.syn(),
                        fin: p.fin(),
                        rst: p.rst(),
                        window: p.window_len(),
                        mss: r.max_seg_size,
                        payload: p.payload().to_vec(),
                    })
                }
                IpProtocol::Udp => {
                    let p = UdpPacket::new_checked(payload).expect("UDP valido");
                    assert!(p.verify_checksum(&isrc, &idst), "checksum UDP (smoltcp)");
                    assert_ne!(p.checksum(), 0, "checksum UDP presente");
                    assert_eq!(
                        inet_sum(&[&pseudo(src, dst, 17, payload.len()), payload]),
                        0,
                        "checksum UDP (ricalcolato)"
                    );
                    Out::Udp {
                        eth_dst: mac(eth.dst_addr()),
                        src: SocketAddrV4::new(src, p.src_port()),
                        dst: SocketAddrV4::new(dst, p.dst_port()),
                        payload: p.payload().to_vec(),
                    }
                }
                IpProtocol::Icmp => {
                    let p = Icmpv4Packet::new_checked(payload).expect("ICMP valido");
                    assert!(p.verify_checksum(), "checksum ICMP (smoltcp)");
                    assert_eq!(inet_sum(&[payload]), 0, "checksum ICMP (ricalcolato)");
                    Out::Icmp {
                        src,
                        dst,
                        ty: payload[0],
                        code: payload[1],
                        rest: [payload[4], payload[5], payload[6], payload[7]],
                        data: payload[8..].to_vec(),
                    }
                }
                other => panic!("protocollo IP inatteso {other:?}"),
            }
        }
        other => panic!("ethertype inatteso {other:?}"),
    }
}

/// Tutti i frame in attesa, validati.
pub fn drain<U: Upstream>(stack: &mut Stack<U>) -> Vec<Out> {
    std::iter::from_fn(|| stack.pop_frame()).map(|f| validate(&f)).collect()
}

pub fn config() -> NetConfig {
    NetConfig { seed: 42, ..NetConfig::default() }
}

/// Il finto guest: costruisce i frame come li manderebbe Linux.
pub struct Guest;

impl Guest {
    pub fn ipv4(dst: Ipv4Addr, proto: u8, payload: &[u8]) -> Vec<u8> {
        wire::build_eth(
            GW_MAC,
            GUEST_MAC,
            wire::ETHERTYPE_IPV4,
            &wire::build_ipv4(GUEST_IP, dst, proto, 1, payload),
        )
    }

    pub fn udp(sport: u16, dst: SocketAddrV4, payload: &[u8]) -> Vec<u8> {
        let seg = wire::build_udp(GUEST_IP, sport, *dst.ip(), dst.port(), payload);
        Self::ipv4(*dst.ip(), wire::PROTO_UDP, &seg)
    }

    pub fn arp_request(target: Ipv4Addr) -> Vec<u8> {
        let arp = wire::build_arp(&wire::Arp {
            op: wire::ARP_REQUEST,
            sender_mac: GUEST_MAC,
            sender_ip: GUEST_IP,
            target_mac: Mac::zero(),
            target_ip: target,
        });
        wire::build_eth(Mac::broadcast(), GUEST_MAC, wire::ETHERTYPE_ARP, &arp)
    }
}

/// Estremo TCP del finto guest, pilotato a mano dai test.
pub struct Client {
    pub sport: u16,
    pub dst: SocketAddrV4,
    /// Prossimo numero di sequenza da mandare.
    pub seq: u32,
    /// Prossimo byte atteso dallo stack.
    pub ack: u32,
    pub window: u16,
    pub mss: u16,
}

pub const F_FIN: u8 = wire::TCP_FIN;
pub const F_SYN: u8 = wire::TCP_SYN;
pub const F_RST: u8 = wire::TCP_RST;
pub const F_ACK: u8 = wire::TCP_ACK;
pub const F_PSH: u8 = wire::TCP_PSH;

impl Client {
    pub fn new(sport: u16, dst: SocketAddrV4) -> Self {
        Client { sport, dst, seq: 1_000_000, ack: 0, window: 64_240, mss: 1460 }
    }

    pub fn segment(&self, seq: u32, flags: u8, payload: &[u8]) -> Vec<u8> {
        let seg = wire::build_tcp(&TcpOut {
            src: GUEST_IP,
            src_port: self.sport,
            dst: *self.dst.ip(),
            dst_port: self.dst.port(),
            seq,
            ack: if flags & F_ACK != 0 { self.ack } else { 0 },
            flags,
            window: self.window,
            mss: (flags & F_SYN != 0).then_some(self.mss),
            payload,
        });
        Guest::ipv4(*self.dst.ip(), wire::PROTO_TCP, &seg)
    }

    pub fn syn(&self) -> Vec<u8> {
        self.segment(self.seq, F_SYN, b"")
    }

    /// Accetta il SYN-ACK e restituisce l'ACK finale dell'handshake.
    pub fn on_syn_ack(&mut self, s: &TcpSeg) -> Vec<u8> {
        assert!(s.syn && !s.rst, "atteso SYN-ACK: {s:?}");
        assert_eq!(s.ack, Some(self.seq.wrapping_add(1)));
        self.seq = self.seq.wrapping_add(1);
        self.ack = s.seq.wrapping_add(1);
        self.segment(self.seq, F_ACK, b"")
    }

    pub fn send(&mut self, data: &[u8]) -> Vec<u8> {
        let f = self.segment(self.seq, F_ACK | F_PSH, data);
        self.seq = self.seq.wrapping_add(data.len() as u32);
        f
    }

    pub fn fin(&mut self) -> Vec<u8> {
        let f = self.segment(self.seq, F_ACK | F_FIN, b"");
        self.seq = self.seq.wrapping_add(1);
        f
    }

    /// Prende i dati (e l'eventuale FIN) di un segmento in ordine.
    pub fn take(&mut self, s: &TcpSeg) {
        assert_eq!(s.seq, self.ack, "segmento fuori ordine: {s:?}");
        self.ack = self.ack.wrapping_add(s.payload.len() as u32 + u32::from(s.fin));
    }

    pub fn ack_now(&self) -> Vec<u8> {
        self.segment(self.seq, F_ACK, b"")
    }
}

// ---- Gateway ---------------------------------------------------------------

fn sinkhole_stack() -> Stack<Sinkhole> {
    Stack::new(config(), Sinkhole::new(SinkholeConfig::default()))
}

/// Messaggio DHCP del client costruito con smoltcp (codificatore indipendente).
fn dhcp_client(message_type: DhcpMessageType, requested: Option<Ipv4Addr>, broadcast: bool) -> Vec<u8> {
    let hostname = [smoltcp::wire::DhcpOption { kind: 12, data: b"vetro-guest" }];
    let repr = DhcpRepr {
        message_type,
        transaction_id: 0xdead_beef,
        secs: 0,
        client_hardware_address: EthernetAddress(GUEST_MAC.octets()),
        client_ip: Ipv4Address::UNSPECIFIED,
        your_ip: Ipv4Address::UNSPECIFIED,
        server_ip: Ipv4Address::UNSPECIFIED,
        router: None,
        subnet_mask: None,
        relay_agent_ip: Ipv4Address::UNSPECIFIED,
        broadcast,
        requested_ip: requested.map(outer),
        client_identifier: None,
        server_identifier: requested.map(|_| outer(GW_IP)),
        parameter_request_list: Some(&[1, 3, 6, 51]),
        dns_servers: None,
        max_size: None,
        lease_duration: None,
        renew_duration: None,
        rebind_duration: None,
        additional_options: &hostname,
    };
    let mut buf = vec![0u8; repr.buffer_len()];
    repr.emit(&mut DhcpPacket::new_unchecked(&mut buf[..])).unwrap();
    // Dal client senza indirizzo: 0.0.0.0:68 → 255.255.255.255:67.
    let udp = wire::build_udp(Ipv4Addr::unspecified(), 68, Ipv4Addr::broadcast(), 67, &buf);
    let ip = wire::build_ipv4(Ipv4Addr::unspecified(), Ipv4Addr::broadcast(), wire::PROTO_UDP, 1, &udp);
    wire::build_eth(Mac::broadcast(), GUEST_MAC, wire::ETHERTYPE_IPV4, &ip)
}

fn expect_dhcp(out: &Out, want: DhcpMessageType, eth_dst: Mac) -> (Ipv4Addr, Vec<u8>) {
    let Out::Udp { eth_dst: d, src, dst, payload } = out else { panic!("atteso UDP: {out:?}") };
    assert_eq!(*d, eth_dst);
    assert_eq!(*src, SocketAddrV4::new(GW_IP, 67));
    assert_eq!(*dst, SocketAddrV4::new(Ipv4Addr::broadcast(), 68));
    assert!(payload.len() >= 300, "risposta BOOTP di almeno 300 byte");
    let pkt = DhcpPacket::new_checked(&payload[..]).unwrap();
    let r = DhcpRepr::parse(&pkt).expect("DHCP analizzabile da smoltcp");
    assert_eq!(r.message_type, want);
    assert_eq!(r.transaction_id, 0xdead_beef);
    assert_eq!(r.client_hardware_address.0, GUEST_MAC.octets());
    assert_eq!(r.server_identifier.map(addr), Some(GW_IP));
    if want != DhcpMessageType::Nak {
        assert_eq!(r.subnet_mask.map(addr), Some(Ipv4Addr::new(255, 255, 255, 0)));
        assert_eq!(r.router.map(addr), Some(GW_IP));
        assert_eq!(r.dns_servers.as_ref().map(|d| d.iter().map(|&a| addr(a)).collect::<Vec<_>>()), Some(vec![DNS_IP]));
        assert_eq!(r.lease_duration, Some(86_400));
        assert_eq!(r.renew_duration, Some(43_200));
        assert_eq!(r.rebind_duration, Some(75_600));
    }
    (addr(r.your_ip), payload.clone())
}

#[test]
fn dhcp_discover_offer_request_ack() {
    let mut s = sinkhole_stack();
    s.receive(t(0), &dhcp_client(DhcpMessageType::Discover, None, false));
    let out = drain(&mut s);
    assert_eq!(out.len(), 1);
    let (yiaddr, _) = expect_dhcp(&out[0], DhcpMessageType::Offer, GUEST_MAC);
    assert_eq!(yiaddr, GUEST_IP);

    s.receive(t(10), &dhcp_client(DhcpMessageType::Request, Some(GUEST_IP), true));
    let out = drain(&mut s);
    let (yiaddr, _) = expect_dhcp(&out[0], DhcpMessageType::Ack, Mac::broadcast());
    assert_eq!(yiaddr, GUEST_IP);

    // Indirizzo sbagliato: NAK in broadcast.
    s.receive(t(20), &dhcp_client(DhcpMessageType::Request, Some(Ipv4Addr::new(10, 0, 2, 99)), false));
    let out = drain(&mut s);
    expect_dhcp(&out[0], DhcpMessageType::Nak, Mac::broadcast());

    let host = Some("vetro-guest".to_owned());
    let dhcp: Vec<_> = s.events().iter().map(|e| (e.at, e.kind.clone())).collect();
    assert_eq!(
        dhcp,
        vec![
            (
                t(0),
                EventKind::Dhcp {
                    message: DhcpMessage::Offer,
                    mac: GUEST_MAC,
                    ip: GUEST_IP,
                    hostname: host.clone()
                }
            ),
            (
                t(10),
                EventKind::Dhcp {
                    message: DhcpMessage::Ack,
                    mac: GUEST_MAC,
                    ip: GUEST_IP,
                    hostname: host.clone()
                }
            ),
            (
                t(20),
                EventKind::Dhcp {
                    message: DhcpMessage::Nak,
                    mac: GUEST_MAC,
                    ip: Ipv4Addr::unspecified(),
                    hostname: host
                }
            ),
        ]
    );
    assert_eq!(s.guest_mac(), Some(GUEST_MAC));
}

#[test]
fn dhcp_request_for_another_server_is_ignored() {
    let mut s = sinkhole_stack();
    let mut frame = dhcp_client(DhcpMessageType::Request, Some(GUEST_IP), false);
    // Cambia il server id (opzione 54) con un altro server e ricalcola il
    // checksum UDP azzerandolo (0 = assente in IPv4).
    let pos = frame.windows(6).position(|w| w == [54, 4, 10, 0, 2, 2]).unwrap();
    frame[pos + 5] = 77;
    frame[14 + 20 + 6..14 + 20 + 8].copy_from_slice(&[0, 0]);
    s.receive(t(0), &frame);
    assert!(drain(&mut s).is_empty());
}

#[test]
fn arp_answers_only_for_gateway_addresses() {
    let mut s = sinkhole_stack();
    for target in [GW_IP, DNS_IP] {
        s.receive(t(0), &Guest::arp_request(target));
        let out = drain(&mut s);
        assert_eq!(
            out,
            vec![Out::Arp {
                op: 2,
                sender_mac: GW_MAC,
                sender_ip: target,
                target_mac: GUEST_MAC,
                target_ip: GUEST_IP
            }]
        );
    }
    // Il probe ARP del guest per il proprio indirizzo non deve avere risposta
    // (altrimenti il guest vedrebbe un conflitto), né un host inesistente.
    for target in [GUEST_IP, Ipv4Addr::new(10, 0, 2, 99)] {
        s.receive(t(0), &Guest::arp_request(target));
        assert!(drain(&mut s).is_empty());
    }
}

fn echo_request(id: u16, seq: u16, data: &[u8]) -> Vec<u8> {
    let mut rest = [0u8; 4];
    rest[..2].copy_from_slice(&id.to_be_bytes());
    rest[2..].copy_from_slice(&seq.to_be_bytes());
    wire::build_icmp(wire::ICMP_ECHO_REQUEST, 0, rest, data)
}

#[test]
fn icmp_echo_gateway_and_external() {
    let mut s =
        Stack::new(config(), Sinkhole::new(SinkholeConfig { answer_ping: false, ..Default::default() }));
    let ext = Ipv4Addr::new(93, 184, 216, 34);
    for dst in [GW_IP, DNS_IP, ext] {
        s.receive(t(5), &Guest::ipv4(dst, wire::PROTO_ICMP, &echo_request(7, 3, b"ping-vetro")));
    }
    let out = drain(&mut s);
    assert_eq!(out.len(), 2, "il gateway e il DNS rispondono, l'esterno no (answer_ping falso)");
    for (o, src) in out.iter().zip([GW_IP, DNS_IP]) {
        assert_eq!(
            *o,
            Out::Icmp {
                src,
                dst: GUEST_IP,
                ty: 0,
                code: 0,
                rest: [0, 7, 0, 3],
                data: b"ping-vetro".to_vec()
            }
        );
    }
    let answered: Vec<_> = s
        .events()
        .iter()
        .map(|e| match &e.kind {
            EventKind::IcmpEcho { dst, answered } => (*dst, *answered),
            k => panic!("{k:?}"),
        })
        .collect();
    assert_eq!(answered, vec![(GW_IP, true), (DNS_IP, true), (ext, false)]);

    let mut s = sinkhole_stack();
    s.receive(t(0), &Guest::ipv4(ext, wire::PROTO_ICMP, &echo_request(1, 1, b"x")));
    assert!(matches!(drain(&mut s)[..], [Out::Icmp { src, ty: 0, .. }] if src == ext));
}

fn dns_ask(
    s: &mut Stack<Sinkhole>,
    now: u64,
    sport: u16,
    txid: u16,
    name: &str,
    qtype: u16,
) -> dns::Response {
    s.receive(
        t(now),
        &Guest::udp(sport, SocketAddrV4::new(DNS_IP, 53), &dns::build_query(txid, name, qtype)),
    );
    let out = drain(s);
    assert_eq!(out.len(), 1);
    let Out::Udp { src, dst, payload, .. } = &out[0] else { panic!("{out:?}") };
    assert_eq!(*src, SocketAddrV4::new(DNS_IP, 53));
    assert_eq!(*dst, SocketAddrV4::new(GUEST_IP, sport));
    // Validazione indipendente dell'intestazione DNS.
    let p = DnsPacket::new_checked(&payload[..]).unwrap();
    assert_eq!(p.transaction_id(), txid);
    assert_eq!(p.rcode(), DnsRcode::NoError);
    assert_eq!(p.question_count(), 1);
    dns::parse_response(payload).unwrap()
}

#[test]
fn dns_resolves_to_deterministic_fake_addresses() {
    let mut s = sinkhole_stack();
    let a = dns_ask(&mut s, 0, 40000, 1, "example.com", TYPE_A);
    assert_eq!(a.addrs, vec![Ipv4Addr::new(198, 18, 0, 1)]);
    let b = dns_ask(&mut s, 1, 40001, 2, "tracker.example.net", TYPE_A);
    assert_eq!(b.addrs, vec![Ipv4Addr::new(198, 18, 0, 2)]);
    // Stesso nome (anche con maiuscole): stesso indirizzo.
    let c = dns_ask(&mut s, 2, 40002, 3, "EXAMPLE.com", TYPE_A);
    assert_eq!(c.addrs, vec![Ipv4Addr::new(198, 18, 0, 1)]);
    // AAAA: nessun record, così il guest usa IPv4.
    let d = dns_ask(&mut s, 3, 40003, 4, "example.com", TYPE_AAAA);
    assert!(d.addrs.is_empty());

    let names: Vec<_> =
        s.upstream().dns_queries().iter().map(|q| (q.name.as_str(), q.qtype, q.answer)).collect();
    assert_eq!(
        names,
        vec![
            ("example.com", TYPE_A, Some(Ipv4Addr::new(198, 18, 0, 1))),
            ("tracker.example.net", TYPE_A, Some(Ipv4Addr::new(198, 18, 0, 2))),
            ("example.com", TYPE_A, Some(Ipv4Addr::new(198, 18, 0, 1))),
            ("example.com", TYPE_AAAA, None),
        ]
    );
    assert_eq!(s.upstream().hostname(Ipv4Addr::new(198, 18, 0, 2)), Some("tracker.example.net"));

    // Registro: per la prima domanda UdpOpen, UdpData, DnsQuery, UdpData, DnsAnswer.
    let first: Vec<_> = s.events().iter().take(5).map(|e| e.kind.clone()).collect();
    let flow =
        Flow { guest: SocketAddrV4::new(GUEST_IP, 40000), remote: SocketAddrV4::new(DNS_IP, 53) };
    let qlen = dns::build_query(1, "example.com", TYPE_A).len();
    assert_eq!(
        first,
        vec![
            EventKind::UdpOpen { id: 1, flow },
            EventKind::UdpData { id: 1, dir: Direction::ToRemote, len: qlen },
            EventKind::DnsQuery { id: 1, txid: 1, name: "example.com".into(), qtype: TYPE_A },
            EventKind::UdpData { id: 1, dir: Direction::ToGuest, len: qlen + 16 },
            EventKind::DnsAnswer {
                id: 1,
                txid: 1,
                name: "example.com".into(),
                qtype: TYPE_A,
                rcode: 0,
                addrs: vec![Ipv4Addr::new(198, 18, 0, 1)],
            },
        ]
    );
}

#[test]
fn udp_flow_reply_record_and_idle_close() {
    let cfg = SinkholeConfig { udp_reply: Some(b"pong".to_vec()), ..Default::default() };
    let mut s = Stack::new(config(), Sinkhole::new(cfg));
    let remote = SocketAddrV4::new(Ipv4Addr::new(203, 0, 113, 9), 5000);
    s.receive(t(0), &Guest::udp(33333, remote, b"hello"));
    s.receive(t(100), &Guest::udp(33333, remote, b"again!"));
    let out = drain(&mut s);
    assert_eq!(out.len(), 2);
    for o in &out {
        assert_eq!(
            *o,
            Out::Udp {
                eth_dst: GUEST_MAC,
                src: remote,
                dst: SocketAddrV4::new(GUEST_IP, 33333),
                payload: b"pong".to_vec()
            }
        );
    }
    let rec = s.upstream().udp_flows();
    assert_eq!(rec.len(), 1);
    assert_eq!(rec[0].datagrams, vec![(t(0), b"hello".to_vec()), (t(100), b"again!".to_vec())]);

    // Chiusura per inattività: la scadenza annunciata è 60 s dopo l'ultimo
    // datagramma (in entrambi i versi).
    assert_eq!(s.next_deadline(), Some(t(60_100)));
    s.poll(t(60_099));
    assert_eq!(s.udp_flows(), 1);
    s.poll(t(60_100));
    assert_eq!(s.udp_flows(), 0);
    assert_eq!(
        s.events().last().unwrap().kind,
        EventKind::UdpClosed { id: 1, reason: CloseReason::Idle, bytes_to_remote: 11, bytes_to_guest: 8 }
    );
    assert_eq!(s.upstream().udp_flows()[0].closed_at, Some(t(60_100)));
    assert_eq!(s.next_deadline(), None);
}

#[test]
fn udp_to_gateway_port_is_unreachable() {
    let mut s = sinkhole_stack();
    let frame = Guest::udp(1234, SocketAddrV4::new(GW_IP, 9999), b"??");
    s.receive(t(0), &frame);
    let out = drain(&mut s);
    let [Out::Icmp { src, dst, ty: 3, code: 3, data, .. }] = &out[..] else { panic!("{out:?}") };
    assert_eq!((*src, *dst), (GW_IP, GUEST_IP));
    // Intestazione IP originale + 8 byte di UDP.
    assert_eq!(data[..], frame[14..14 + 28]);
    assert!(s.events().is_empty());
}

#[test]
fn bad_checksums_and_unsupported_frames_are_dropped() {
    let mut s = sinkhole_stack();
    // Checksum UDP corrotto.
    let mut f = Guest::udp(1, SocketAddrV4::new(DNS_IP, 53), &dns::build_query(1, "a.b", TYPE_A));
    let last = f.len() - 1;
    f[last] ^= 0xff;
    s.receive(t(0), &f);
    // Checksum IP corrotto.
    let mut f = Guest::udp(1, SocketAddrV4::new(DNS_IP, 53), &dns::build_query(1, "a.b", TYPE_A));
    f[14 + 10] ^= 0xff;
    s.receive(t(0), &f);
    // IPv6 (non supportato), frame troncato, frame per un altro MAC.
    s.receive(t(0), &wire::build_eth(GW_MAC, GUEST_MAC, wire::ETHERTYPE_IPV6, &[0x60; 40]));
    s.receive(t(0), &[0u8; 10]);
    s.receive(t(0), &wire::build_eth(Mac::new([2, 0, 0, 0, 0, 1]), GUEST_MAC, wire::ETHERTYPE_ARP, &[0; 28]));
    // Frammento IPv4 (MF impostato).
    let mut f = Guest::udp(1, SocketAddrV4::new(Ipv4Addr::new(1, 1, 1, 1), 53), b"x");
    f[14 + 6] = 0x20;
    f[14 + 10..14 + 12].copy_from_slice(&[0, 0]);
    let c = wire::checksum(&f[14..34]);
    f[14 + 10..14 + 12].copy_from_slice(&c.to_be_bytes());
    s.receive(t(0), &f);

    assert!(drain(&mut s).is_empty());
    assert!(s.events().is_empty());
    let st = s.stats();
    assert_eq!((st.bad_checksum, st.ipv6, st.malformed, st.not_for_us, st.fragments), (2, 1, 1, 1, 1));

    // Con la verifica disattivata lo stesso pacchetto passa.
    let mut s = Stack::new(NetConfig { verify_checksums: false, ..config() }, Sinkhole::default());
    let mut f = Guest::udp(1, SocketAddrV4::new(DNS_IP, 53), &dns::build_query(1, "a.b", TYPE_A));
    f[14 + 20 + 6] ^= 0xff;
    s.receive(t(0), &f);
    assert_eq!(drain(&mut s).len(), 1);
}

// ---- TCP -------------------------------------------------------------------

const REMOTE: SocketAddrV4 = SocketAddrV4 { ip: Ipv4Addr { bits: 0xcb00_7105 }, port: 443 };

fn stack_with(cfg: SinkholeConfig) -> Stack<Sinkhole> {
    Stack::new(config(), Sinkhole::new(cfg))
}

fn one(out: Vec<Out>) -> TcpSeg {
    assert_eq!(out.len(), 1, "atteso un segmento: {out:?}");
    out.into_iter().next().unwrap().tcp()
}

/// Handshake completo; restituisce il client pronto.
fn connect(s: &mut Stack<Sinkhole>, now: u64, sport: u16, dst: SocketAddrV4) -> Client {
    let mut c = Client::new(sport, dst);
    s.receive(t(now), &c.syn());
    let synack = one(drain(s));
    assert_eq!(synack.src, dst);
    assert_eq!(synack.dst, SocketAddrV4::new(GUEST_IP, sport));
    assert_eq!(synack.mss, Some(1460), "MSS = MTU - 40");
    assert_eq!(synack.window, 65_535);
    let ack = c.on_syn_ack(&synack);
    s.receive(t(now), &ack);
    c
}

fn kinds(s: &Stack<Sinkhole>) -> Vec<EventKind> {
    s.events().iter().map(|e| e.kind.clone()).collect()
}

#[test]
fn http_session_with_dns_attribution_and_server_close() {
    let mut s = stack_with(SinkholeConfig::default());
    // DNS prima: la connessione verso l'indirizzo finto porta il nome.
    s.receive(
        t(0),
        &Guest::udp(50000, SocketAddrV4::new(DNS_IP, 53), &dns::build_query(9, "api.example.org", TYPE_A)),
    );
    let Out::Udp { payload, .. } = drain(&mut s).remove(0) else { panic!() };
    let addr = dns::parse_response(&payload).unwrap().addrs[0];
    let dst = SocketAddrV4::new(addr, 80);
    s.take_events();

    let mut c = connect(&mut s, 10, 41000, dst);
    assert!(drain(&mut s).is_empty(), "nessun dato prima della richiesta");

    let req = b"GET /v1/ping HTTP/1.1\r\nHost: api.example.org\r\n\r\n";
    s.receive(t(20), &c.send(req));
    let out = drain(&mut s);
    // ACK dei dati insieme alla risposta, poi FIN (close_after_reply).
    assert_eq!(out.len(), 2, "{out:?}");
    let data = out[0].clone().tcp();
    let fin = out[1].clone().tcp();
    assert_eq!(data.ack, Some(c.seq));
    assert_eq!(data.payload, TcpReply::http_empty().on_data);
    c.take(&data);
    assert!(fin.fin && fin.payload.is_empty());
    c.take(&fin);

    // Il guest riscontra tutto e chiude a sua volta.
    s.receive(t(30), &c.ack_now());
    assert!(drain(&mut s).is_empty());
    s.receive(t(31), &c.fin());
    let last = one(drain(&mut s));
    assert_eq!(last.ack, Some(c.seq), "ACK del FIN del guest");
    assert!(!last.fin && !last.rst);
    // TIME-WAIT: la connessione resta per 4 s virtuali.
    assert_eq!(s.tcp_connections(), 1);
    assert_eq!(s.next_deadline(), Some(t(4031)));
    s.poll(t(4030));
    assert_eq!(s.tcp_connections(), 1);
    s.poll(t(4031));
    assert_eq!(s.tcp_connections(), 0);

    let resp_len = TcpReply::http_empty().on_data.len();
    let flow = Flow { guest: SocketAddrV4::new(GUEST_IP, 41000), remote: dst };
    let at: Vec<_> = s.events().iter().map(|e| (e.at, e.kind.clone())).collect();
    assert_eq!(
        at,
        vec![
            (t(10), EventKind::TcpOpen { id: 2, flow }),
            (t(10), EventKind::TcpEstablished { id: 2 }),
            (t(20), EventKind::TcpData { id: 2, dir: Direction::ToRemote, len: req.len() }),
            (t(20), EventKind::TcpData { id: 2, dir: Direction::ToGuest, len: resp_len }),
            (
                t(4031),
                EventKind::TcpClosed {
                    id: 2,
                    reason: CloseReason::Normal,
                    bytes_to_remote: req.len() as u64,
                    bytes_to_guest: resp_len as u64
                }
            ),
        ]
    );
    let rec = s.upstream().tcp_connection(2).unwrap();
    assert_eq!(rec.hostname.as_deref(), Some("api.example.org"));
    assert_eq!(rec.from_guest, req);
    assert_eq!(rec.to_guest, resp_len as u64);
    assert!(rec.guest_shutdown && !rec.reset);
    assert_eq!(rec.closed_at, Some(t(4031)));
}

#[test]
fn guest_closes_first_and_server_follows() {
    let mut s = stack_with(SinkholeConfig::default());
    let mut c = connect(&mut s, 0, 41001, REMOTE);
    s.receive(t(1), &c.send(b"hello"));
    let ack = one(drain(&mut s));
    assert_eq!(ack.ack, Some(c.seq));
    assert!(ack.payload.is_empty());

    // FIN del guest: lo stack riscontra e, siccome il sinkhole chiude quando
    // il client ha finito, manda subito anche il suo FIN (LAST-ACK).
    s.receive(t(2), &c.fin());
    let fin = one(drain(&mut s));
    assert!(fin.fin);
    assert_eq!(fin.ack, Some(c.seq));
    c.take(&fin);
    s.receive(t(3), &c.ack_now());
    assert!(drain(&mut s).is_empty());
    assert_eq!(s.tcp_connections(), 0, "chiusa senza TIME-WAIT lato host");
    assert_eq!(
        kinds(&s).last().unwrap(),
        &EventKind::TcpClosed { id: 1, reason: CloseReason::Normal, bytes_to_remote: 5, bytes_to_guest: 0 }
    );
}

#[test]
fn banner_retransmitted_until_acknowledged() {
    let mut cfg = SinkholeConfig::default();
    cfg.tcp_by_port.insert(
        25,
        TcpReply {
            on_connect: b"220 vetro ESMTP\r\n".to_vec(),
            on_data: b"250 ok\r\n".to_vec(),
            close_after_reply: false,
        },
    );
    let mut s = stack_with(cfg);
    let dst = SocketAddrV4::new(*REMOTE.ip(), 25);
    let mut c = Client::new(41002, dst);
    s.receive(t(0), &c.syn());
    let synack = one(drain(&mut s));
    let ack = c.on_syn_ack(&synack);
    s.receive(t(0), &ack);
    let banner = one(drain(&mut s));
    assert_eq!(banner.payload, b"220 vetro ESMTP\r\n");

    // Il guest "perde" il banner: dopo l'RTO iniziale (1 s) torna uguale.
    assert_eq!(s.next_deadline(), Some(t(1000)));
    s.poll(t(999));
    assert!(drain(&mut s).is_empty());
    s.poll(t(1000));
    let again = one(drain(&mut s));
    assert_eq!((again.seq, &again.payload), (banner.seq, &banner.payload));
    // Raddoppio: il prossimo tentativo è a +2 s.
    assert_eq!(s.next_deadline(), Some(t(3000)));
    c.take(&again);
    s.receive(t(1100), &c.ack_now());
    assert_eq!(s.next_deadline(), None, "tutto riscontrato: nessun timer");
    s.poll(t(1150));
    assert!(drain(&mut s).is_empty());

    // L'ACK di dati nuovi ha annullato il raddoppio: la risposta successiva
    // riparte con l'RTO base (1 s: nessun campione valido, per Karn).
    s.receive(t(1200), &c.send(b"EHLO guest\r\n"));
    let reply = one(drain(&mut s));
    assert_eq!(reply.payload, b"250 ok\r\n");
    assert_eq!(s.next_deadline(), Some(t(2200)));
    c.take(&reply);
}

#[test]
fn syn_ack_retransmitted_and_duplicate_syn_answered() {
    let mut s = stack_with(SinkholeConfig::default());
    let mut c = Client::new(41003, REMOTE);
    s.receive(t(0), &c.syn());
    let first = one(drain(&mut s));
    // SYN ritrasmesso dal guest: stesso SYN-ACK.
    s.receive(t(500), &c.syn());
    let dup = one(drain(&mut s));
    assert_eq!((dup.seq, dup.ack, dup.syn), (first.seq, first.ack, true));
    // Nessun ACK: il timer ritrasmette il SYN-ACK.
    s.poll(t(1500));
    let rtx = one(drain(&mut s));
    assert!(rtx.syn && rtx.seq == first.seq);
    let ack = c.on_syn_ack(&rtx);
    s.receive(t(1600), &ack);
    assert!(matches!(kinds(&s)[..], [EventKind::TcpOpen { .. }, EventKind::TcpEstablished { id: 1 }]));
}

#[test]
fn large_response_respects_mss_window_and_ack_clocking() {
    let body: Vec<u8> = (0..20_000u32).map(|i| (i % 251) as u8).collect();
    let cfg = SinkholeConfig {
        tcp_default: TcpReply { on_data: body.clone(), close_after_reply: true, ..Default::default() },
        ..Default::default()
    };
    let mut s = stack_with(cfg);
    let mut c = Client::new(41004, REMOTE);
    c.mss = 536;
    c.window = 3000;
    s.receive(t(0), &c.syn());
    let ack = c.on_syn_ack(&one(drain(&mut s)));
    s.receive(t(0), &ack);
    s.receive(t(1), &c.send(b"GET"));

    let mut got = Vec::new();
    let mut now = 1;
    let mut fin_seen = false;
    for _ in 0..200 {
        let out = drain(&mut s);
        let mut in_flight = 0usize;
        for o in out {
            let seg = o.tcp();
            assert!(seg.payload.len() <= 536, "segmento oltre l'MSS del guest");
            in_flight += seg.payload.len();
            c.take(&seg);
            got.extend_from_slice(&seg.payload);
            fin_seen |= seg.fin;
        }
        assert!(in_flight <= 3000, "oltre la finestra del guest: {in_flight}");
        if fin_seen {
            break;
        }
        now += 1;
        s.receive(t(now), &c.ack_now());
    }
    assert!(fin_seen);
    assert_eq!(got, body);
}

#[test]
fn zero_window_probe_then_window_opens() {
    let cfg = SinkholeConfig {
        tcp_default: TcpReply { on_connect: vec![7u8; 100], ..Default::default() },
        ..Default::default()
    };
    let mut s = stack_with(cfg);
    let mut c = Client::new(41005, REMOTE);
    s.receive(t(0), &c.syn());
    let synack = one(drain(&mut s));
    c.window = 0;
    let ack = c.on_syn_ack(&synack);
    s.receive(t(0), &ack);
    assert!(drain(&mut s).is_empty(), "finestra zero: niente dati");

    // Sonda allo scadere del timer; il guest risponde con finestra ancora
    // zero, quindi la connessione non viene abbandonata anche oltre il
    // numero massimo di ritrasmissioni.
    let mut now = 0;
    for _ in 0..(max_retries() + 3) {
        now = s.next_deadline().unwrap().as_micros().div_ceil(1000);
        s.poll(t(now));
        let probe = one(drain(&mut s));
        assert!(probe.payload.is_empty());
        assert_eq!(probe.seq, c.ack.wrapping_sub(1), "sequenza già riscontrata");
        s.receive(t(now), &c.ack_now());
        assert!(drain(&mut s).is_empty());
    }
    assert_eq!(s.tcp_connections(), 1);

    c.window = 65_535;
    s.receive(t(now + 1), &c.ack_now());
    let seg = one(drain(&mut s));
    assert_eq!(seg.payload, vec![7u8; 100]);
}

fn max_retries() -> usize {
    15
}

#[test]
fn retransmissions_exhausted_reset_and_timeout() {
    let cfg = SinkholeConfig {
        tcp_default: TcpReply { on_connect: b"banner".to_vec(), ..Default::default() },
        ..Default::default()
    };
    let mut s = stack_with(cfg);
    let _c = connect(&mut s, 0, 41006, REMOTE);
    let banner = one(drain(&mut s));
    let mut sent = 0;
    while let Some(d) = s.next_deadline() {
        s.poll(d);
        let out = drain(&mut s);
        let seg = out.last().unwrap().clone().tcp();
        if seg.rst {
            assert_eq!(seg.seq, banner.seq.wrapping_add(6));
            break;
        }
        assert_eq!(seg.payload, b"banner");
        sent += 1;
    }
    assert_eq!(sent, max_retries());
    assert_eq!(s.tcp_connections(), 0);
    assert!(matches!(
        kinds(&s).last().unwrap(),
        EventKind::TcpClosed { reason: CloseReason::Timeout, bytes_to_guest: 6, .. }
    ));
    assert!(s.upstream().tcp_connection(1).unwrap().reset);
}

#[test]
fn guest_reset_closes_connection() {
    let mut s = stack_with(SinkholeConfig::default());
    let mut c = connect(&mut s, 0, 41007, REMOTE);
    s.receive(t(1), &c.send(b"abc"));
    drain(&mut s);
    // RST fuori finestra: ignorato.
    s.receive(t(2), &c.segment(c.seq.wrapping_add(100_000), F_RST, b""));
    assert_eq!(s.tcp_connections(), 1);
    s.receive(t(3), &c.segment(c.seq, F_RST, b""));
    assert_eq!(s.tcp_connections(), 0);
    assert!(drain(&mut s).is_empty(), "nessuna risposta a un RST");
    assert_eq!(
        kinds(&s).last().unwrap(),
        &EventKind::TcpClosed {
            id: 1,
            reason: CloseReason::GuestReset,
            bytes_to_remote: 3,
            bytes_to_guest: 0
        }
    );
    let rec = s.upstream().tcp_connection(1).unwrap();
    assert!(rec.reset);
    assert_eq!(rec.from_guest, b"abc");
}

#[test]
fn refused_port_gets_rst_and_unknown_segments_get_rst() {
    let mut cfg = SinkholeConfig::default();
    cfg.refused_ports.insert(22);
    let mut s = stack_with(cfg);
    let dst = SocketAddrV4::new(*REMOTE.ip(), 22);
    let mut c = Client::new(41008, dst);
    s.receive(t(0), &c.syn());
    let rst = one(drain(&mut s));
    assert!(rst.rst);
    assert_eq!(rst.ack, Some(c.seq.wrapping_add(1)));
    assert_eq!(rst.seq, 0);
    assert_eq!(s.tcp_connections(), 0);
    assert!(matches!(
        kinds(&s)[..],
        [EventKind::TcpOpen { .. }, EventKind::TcpClosed { reason: CloseReason::Refused, .. }]
    ));
    assert!(!s.upstream().tcp_connection(1).unwrap().reset);

    // Segmento con ACK per una connessione che non esiste: RST con seq = ACK.
    c.ack = 777;
    s.receive(t(1), &c.segment(5, F_ACK, b"zz"));
    let r = one(drain(&mut s));
    assert!(r.rst && r.seq == 777 && r.ack.is_none());
    // Senza ACK: RST|ACK che riscontra il segmento.
    s.receive(t(1), &c.segment(5, F_FIN, b"zz"));
    let r = one(drain(&mut s));
    assert!(r.rst && r.seq == 0 && r.ack == Some(8));
    // A un RST non si risponde mai.
    s.receive(t(1), &c.segment(5, F_RST, b""));
    assert!(drain(&mut s).is_empty());
}

#[test]
fn out_of_order_segment_is_dropped_with_duplicate_ack() {
    let mut s = stack_with(SinkholeConfig::default());
    let c = connect(&mut s, 0, 41009, REMOTE);
    let base = c.seq;
    // Arriva prima il secondo pezzo.
    s.receive(t(1), &c.segment(base.wrapping_add(3), F_ACK, b"def"));
    let dup = one(drain(&mut s));
    assert_eq!(dup.ack, Some(base));
    s.receive(t(2), &c.segment(base, F_ACK, b"abc"));
    assert_eq!(one(drain(&mut s)).ack, Some(base.wrapping_add(3)));
    // Ritrasmissione che si sovrappone: si prende solo la parte nuova.
    s.receive(t(3), &c.segment(base.wrapping_add(1), F_ACK, b"bcdef"));
    assert_eq!(one(drain(&mut s)).ack, Some(base.wrapping_add(6)));
    // Duplicato completo: solo un ACK.
    s.receive(t(4), &c.segment(base, F_ACK, b"abc"));
    assert_eq!(one(drain(&mut s)).ack, Some(base.wrapping_add(6)));
    assert_eq!(s.upstream().tcp_connection(1).unwrap().from_guest, b"abcdef");
    let to_remote: usize = s
        .events()
        .iter()
        .filter_map(|e| match e.kind {
            EventKind::TcpData { dir: Direction::ToRemote, len, .. } => Some(len),
            _ => None,
        })
        .sum();
    assert_eq!(to_remote, 6, "i byte ripetuti non si contano due volte");
}

/// An RST inside the window but not where it is expected does not close the
/// connection: it is answered with an ACK of what is expected.
#[test]
fn misplaced_reset_gets_challenge_ack() {
    let mut s = stack_with(SinkholeConfig::default());
    let c = connect(&mut s, 0, 41011, REMOTE);
    s.receive(t(1), &c.segment(c.seq.wrapping_add(10), F_RST, b""));
    let ch = one(drain(&mut s));
    assert!(!ch.syn && !ch.rst && ch.ack == Some(c.seq));
    assert_eq!(s.tcp_connections(), 1);
    s.receive(t(2), &c.segment(c.seq, F_RST, b""));
    assert_eq!(s.tcp_connections(), 0);
    assert!(drain(&mut s).is_empty());
}

/// A FIN that comes too early does not count, and the answer says what is expected.
#[test]
fn early_fin_does_not_count() {
    let mut s = stack_with(SinkholeConfig::default());
    let c = connect(&mut s, 0, 41012, REMOTE);
    s.receive(t(1), &c.segment(c.seq.wrapping_add(3), F_ACK | F_FIN, b"def"));
    assert_eq!(one(drain(&mut s)).ack, Some(c.seq));
    let rec = s.upstream().tcp_connection(1).unwrap();
    assert!(rec.from_guest.is_empty() && !rec.guest_shutdown);
}

#[test]
fn syn_in_established_gets_challenge_ack() {
    let mut s = stack_with(SinkholeConfig::default());
    let c = connect(&mut s, 0, 41010, REMOTE);
    s.receive(t(1), &c.segment(c.seq, F_SYN, b""));
    let ch = one(drain(&mut s));
    assert!(!ch.syn && !ch.rst && ch.ack == Some(c.seq));
    assert_eq!(s.tcp_connections(), 1);
}

/// Upstream lento: accetta pochi byte alla volta, così la finestra annunciata
/// al guest si chiude e poi si riapre.
#[derive(Default)]
struct Slow {
    budget: usize,
    got: Vec<u8>,
}

impl Upstream for Slow {
    type Model = ();
    fn model(&self) {}
    fn udp_drains(_m: (), _now: VirtualTime) {}
    fn read_fits(_m: (), _now: VirtualTime, _id: u64, _room: usize) {}
    fn ping(&mut self, _: VirtualTime, _: Ipv4Addr) -> bool {
        false
    }
    fn tcp_open(&mut self, _: VirtualTime, _: u64, _: Flow) {}
    fn tcp_status(&mut self, _: VirtualTime, _: u64) -> TcpStatus {
        TcpStatus::Connected
    }
    fn tcp_write(&mut self, _: VirtualTime, _: u64, data: &[u8]) -> usize {
        let n = data.len().min(self.budget);
        self.budget -= n;
        self.got.extend_from_slice(&data[..n]);
        n
    }
    fn tcp_read(&mut self, _: VirtualTime, _: u64, _: &mut [u8]) -> TcpRead {
        TcpRead::WouldBlock
    }
    fn tcp_shutdown(&mut self, _: VirtualTime, _: u64) {}
    fn tcp_close(&mut self, _: VirtualTime, _: u64, _: bool) {}
    fn udp_send(&mut self, _: VirtualTime, _: u64, _: Flow, _: &[u8]) {}
    fn udp_recv(&mut self, _: VirtualTime) -> Option<(u64, Vec<u8>)> {
        None
    }
    fn udp_close(&mut self, _: VirtualTime, _: u64) {}
}

#[test]
fn receive_window_tracks_upstream_backpressure() {
    let mut s = Stack::new(config(), Slow::default());
    let mut c = Client::new(41011, REMOTE);
    s.receive(t(0), &c.syn());
    let ack = c.on_syn_ack(&one(drain(&mut s)));
    s.receive(t(0), &ack);

    let chunk = vec![1u8; 1460];
    let mut sent = 0usize;
    let mut window = 65_535usize;
    // Riempie la finestra: l'upstream non prende niente.
    while window > 0 {
        let n = chunk.len().min(window);
        s.receive(t(1), &c.send(&chunk[..n]));
        sent += n;
        let a = one(drain(&mut s));
        assert_eq!(a.ack, Some(c.seq));
        window = usize::from(a.window);
        assert_eq!(window, 65_535 - sent);
    }
    // Un byte oltre la finestra zero non viene accettato.
    s.receive(t(2), &c.segment(c.seq, F_ACK, b"x"));
    assert_eq!(one(drain(&mut s)).ack, Some(c.seq));

    // L'upstream si libera: aggiornamento di finestra spontaneo.
    s.upstream_mut().budget = 10_000;
    s.poll(t(3));
    let upd = one(drain(&mut s));
    assert_eq!(usize::from(upd.window), 10_000);
    assert_eq!(s.upstream().got.len(), 10_000);
    assert_eq!(sent, 65_535);
}

fn scenario(seed: u64) -> (Vec<Vec<u8>>, Vec<NetEvent>) {
    let mut s = Stack::new(NetConfig { seed, ..NetConfig::default() }, Sinkhole::default());
    let mut frames = Vec::new();
    let mut c = Client::new(42000, REMOTE);
    s.receive(t(0), &c.syn());
    let f = s.pop_frame().unwrap();
    let synack = validate(&f).tcp();
    frames.push(f);
    s.receive(t(1), &c.on_syn_ack(&synack));
    s.receive(t(2), &c.send(b"payload"));
    s.receive(t(3), &c.fin());
    s.poll(t(5000));
    frames.extend(std::iter::from_fn(|| s.pop_frame()));
    (frames, s.take_events())
}

#[test]
fn same_scenario_is_deterministic_and_seed_changes_isn() {
    let a = scenario(7);
    let b = scenario(7);
    assert_eq!(a, b);
    let c = scenario(8);
    assert_ne!(a.0[0], c.0[0], "seme diverso, ISN diverso");
    assert_eq!(a.1.len(), c.1.len());
}

#[test]
fn many_parallel_connections_to_same_port() {
    let mut s = stack_with(SinkholeConfig::default());
    let mut clients = BTreeMap::new();
    for i in 0..20u16 {
        let c = connect(&mut s, 0, 43000 + i, REMOTE);
        clients.insert(i, c);
    }
    for (i, c) in clients.iter_mut() {
        s.receive(t(1), &c.send(format!("conn {i}").as_bytes()));
    }
    drain(&mut s);
    for (i, rec) in s.upstream().tcp_connections().into_iter().enumerate() {
        assert_eq!(rec.from_guest, format!("conn {i}").as_bytes());
    }
    assert_eq!(s.tcp_connections(), 20);
}

/// Generatore xorshift64 seminato, per perdere frame in modo riproducibile.
const LOSS: u64 = 20;
struct Rng(u64);

impl Rng {
    fn chance(&mut self, percent: u64) -> bool {
        self.0 ^= self.0 << 13;
        self.0 ^= self.0 >> 7;
        self.0 ^= self.0 << 17;
        self.0 % 100 < percent
    }
}

fn seq_lt(a: u32, b: u32) -> bool {
    (a.wrapping_sub(b) as i32) < 0
}

/// Trasferimento in entrambi i versi, contemporaneo, su un cavo che perde
/// il 20% dei frame in ciascun verso. Il finto guest è un TCP minimo con
/// go-back-N; lo stack deve consegnare tutto, in ordine, e chiudere pulito.
fn lossy_transfer(seed: u64) {
    let download: Vec<u8> = (0..120_000u32).map(|i| (i.wrapping_mul(2_654_435_761) >> 24) as u8).collect();
    let upload: Vec<u8> = (0..40_000u32).map(|i| (i % 253) as u8).collect();
    let cfg = SinkholeConfig {
        tcp_default: TcpReply { on_data: download.clone(), close_after_reply: true, ..Default::default() },
        ..Default::default()
    };
    let mut s = stack_with(cfg);
    let mut c = connect(&mut s, 0, 45000, REMOTE);
    let mut rng = Rng(seed);

    let base = c.seq;
    let end = base.wrapping_add(upload.len() as u32);
    let fin_end = end.wrapping_add(1);
    let (mut acked, mut next) = (base, base);
    let mut peer_window = 65_535u32;
    let mut received = Vec::new();
    let mut got_fin = false;
    let mut last_progress = 0u64;
    let mut now = 1u64;
    let mut done_at = None;

    for _ in 0..50_000 {
        // Frame dallo stack al guest.
        let mut need_ack = false;
        while let Some(f) = s.pop_frame() {
            let seg = validate(&f).tcp();
            if rng.chance(LOSS) {
                continue;
            }
            assert!(!seg.rst, "RST inatteso: {seg:?}");
            if let Some(a) = seg.ack {
                if seq_lt(acked, a) {
                    acked = a;
                    last_progress = now;
                }
            }
            peer_window = u32::from(seg.window);
            if !seg.payload.is_empty() || seg.fin {
                need_ack = true;
                if seg.seq == c.ack && !got_fin {
                    received.extend_from_slice(&seg.payload);
                    c.ack = c.ack.wrapping_add(seg.payload.len() as u32);
                    if seg.fin {
                        c.ack = c.ack.wrapping_add(1);
                        got_fin = true;
                    }
                }
            }
        }
        if need_ack && !rng.chance(LOSS) {
            s.receive(t(now), &c.segment(next, F_ACK, b""));
        }
        if got_fin && acked == fin_end {
            done_at = Some(now);
            break;
        }
        // Timeout del guest: go-back-N.
        if acked != next && now - last_progress >= 300 {
            next = acked;
            last_progress = now;
        }
        // Dati (e FIN) del guest nella finestra dello stack.
        let limit = peer_window.min(8_000);
        while next.wrapping_sub(acked) < limit && seq_lt(next, fin_end) {
            let frame = if next == end {
                let f = c.segment(next, F_ACK | F_FIN, b"");
                next = fin_end;
                f
            } else {
                let off = next.wrapping_sub(base) as usize;
                let room = (limit - next.wrapping_sub(acked)) as usize;
                let n = (upload.len() - off).min(1_000).min(room);
                let f = c.segment(next, F_ACK | F_PSH, &upload[off..off + n]);
                next = next.wrapping_add(n as u32);
                f
            };
            if !rng.chance(LOSS) {
                s.receive(t(now), &frame);
            }
        }
        now += 20;
        s.poll(t(now));
    }
    let done_at = done_at.unwrap_or_else(|| {
        panic!(
            "trasferimento non concluso (seme {seed}, scadenza {:?}, ora {now}): acked={} next={} end={end} ricevuti={} fin={got_fin} conn={} ultimi eventi {:?}",
            s.next_deadline(),
            acked.wrapping_sub(base),
            next.wrapping_sub(base),
            received.len(),
            s.tcp_connections(),
            &s.events()[s.events().len().saturating_sub(4)..]
        )
    });
    assert_eq!(received.len(), download.len());
    assert!(received == download, "download corrotto");
    let rec = s.upstream().tcp_connection(1).unwrap();
    assert!(rec.from_guest == upload, "upload corrotto");
    assert!(rec.guest_shutdown);
    // Gli ultimi ACK del guest possono essersi persi: il guest resta in
    // ascolto (senza perdite) e riscontra le ritrasmissioni dello stack.
    // Lo stack ha chiuso per primo: TIME-WAIT, poi si chiude da solo.
    let mut now = done_at;
    while s.tcp_connections() > 0 && now < done_at + 200_000 {
        now = s.next_deadline().map_or(now + 1_000, |d| d.as_micros().div_ceil(1_000));
        s.poll(t(now));
        let resend = drain(&mut s).into_iter().map(Out::tcp).any(|seg| seg.fin || !seg.payload.is_empty());
        if resend {
            s.receive(t(now), &c.segment(fin_end, F_ACK, b""));
        }
    }
    assert_eq!(s.tcp_connections(), 0);
    assert_eq!(
        kinds(&s).last().unwrap(),
        &EventKind::TcpClosed {
            id: 1,
            reason: CloseReason::Normal,
            bytes_to_remote: upload.len() as u64,
            bytes_to_guest: download.len() as u64
        },
        "seme {seed}"
    );
}

#[test]
fn lossy_link_bulk_transfer_both_directions() {
    for seed in 1..=12u64 {
        lossy_transfer(seed);
    }
}

// ---- Relay -----------------------------------------------------------------

fn relay_stack() -> Stack<RelayUpstream<MemoryRelay>> {
    let mut relay = MemoryRelay { refused_ports: vec![23], ..MemoryRelay::default() };
    relay.hosts.insert("echo.vetro.test".into(), Ipv4Addr::new(192, 0, 2, 7));
    Stack::new(config(), RelayUpstream::new(relay))
}

#[test]
fn dns_through_relay() {
    let mut s = relay_stack();
    let dns_srv = SocketAddrV4::new(DNS_IP, 53);
    s.receive(t(0), &Guest::udp(5353, dns_srv, &dns::build_query(1, "echo.vetro.test", TYPE_A)));
    s.receive(t(0), &Guest::udp(5354, dns_srv, &dns::build_query(2, "missing.test", TYPE_A)));
    let out = drain(&mut s);
    let answers: Vec<_> = out
        .iter()
        .map(|o| match o {
            Out::Udp { payload, .. } => dns::parse_response(payload).unwrap(),
            o => panic!("{o:?}"),
        })
        .collect();
    assert_eq!(answers[0].addrs, vec![Ipv4Addr::new(192, 0, 2, 7)]);
    assert_eq!(answers[1].rcode, RCODE_NXDOMAIN);
    assert!(s.events().iter().any(|e| matches!(
        &e.kind,
        EventKind::DnsAnswer { name, rcode: 3, .. } if name == "missing.test"
    )));
}

#[test]
fn tcp_echo_through_relay_and_close() {
    let mut s = relay_stack();
    let dst = SocketAddrV4::new(Ipv4Addr::new(192, 0, 2, 7), 7);
    let mut c = Client::new(44000, dst);
    s.receive(t(0), &c.syn());
    let ack = c.on_syn_ack(&drain(&mut s).remove(0).tcp());
    s.receive(t(0), &ack);
    s.receive(t(1), &c.send(b"echo me"));
    let out = drain(&mut s);
    let seg = out.into_iter().map(Out::tcp).find(|s| !s.payload.is_empty()).unwrap();
    assert_eq!(seg.payload, b"echo me");
    c.take(&seg);
    // FIN del guest: il relay chiude il suo verso, lo stack manda FIN.
    s.receive(t(2), &c.fin());
    let fin = drain(&mut s).into_iter().map(Out::tcp).find(|s| s.fin).unwrap();
    c.take(&fin);
    s.receive(t(3), &c.ack_now());
    assert_eq!(s.tcp_connections(), 0);

    let sent = &s.upstream().relay().sent;
    assert_eq!(
        sent[..],
        [
            RelayMessage::TcpConnect { id: 1, dst },
            RelayMessage::TcpData { id: 1, data: b"echo me".to_vec() },
            RelayMessage::TcpShutdown { id: 1 },
            RelayMessage::TcpClose { id: 1, reset: false },
        ]
    );
    assert!(matches!(
        s.events().last().unwrap().kind,
        EventKind::TcpClosed { reason: CloseReason::Normal, .. }
    ));
}

/// Relay pilotato a mano dal test: niente risposte automatiche.
#[derive(Default)]
struct Manual {
    sent: Vec<RelayMessage>,
    inbox: VecDeque<RelayMessage>,
}

impl Relay for Manual {
    type Model = ();
    fn model(&self) {}
    fn drains(_m: ()) {}
    fn quiet(_m: ()) {}
    fn send(&mut self, msg: RelayMessage) {
        self.sent.push(msg);
    }
    fn recv(&mut self) -> Option<RelayMessage> {
        self.inbox.pop_front()
    }
}

#[test]
fn relay_refusal() {
    let mut s = relay_stack();
    let c = Client::new(44001, SocketAddrV4::new(Ipv4Addr::new(192, 0, 2, 7), 23));
    s.receive(t(0), &c.segment(c.seq, F_SYN, b""));
    assert!(drain(&mut s).remove(0).tcp().rst);
    assert!(matches!(
        s.events().last().unwrap().kind,
        EventKind::TcpClosed { reason: CloseReason::Refused, .. }
    ));
}

#[test]
fn pending_connect_waits_for_relay_then_times_out() {
    let mut s = Stack::new(config(), RelayUpstream::new(Manual::default()));
    let dst = SocketAddrV4::new(Ipv4Addr::new(192, 0, 2, 7), 80);
    let mut a = Client::new(44002, dst);
    let b = Client::new(44003, dst);
    s.receive(t(0), &a.syn());
    s.receive(t(0), &b.syn());
    assert!(drain(&mut s).is_empty(), "in attesa del relay: nessun SYN-ACK");
    // SYN ritrasmesso: ancora niente.
    s.receive(t(1000), &a.syn());
    assert!(drain(&mut s).is_empty());

    // Il relay apre la prima connessione: SYN-ACK al giro di poll.
    s.upstream_mut().relay_mut().inbox.push_back(RelayMessage::TcpConnected { id: 1 });
    s.poll(t(1500));
    let synack = drain(&mut s).remove(0).tcp();
    assert!(synack.syn && synack.dst.port() == 44002);
    s.receive(t(1500), &a.on_syn_ack(&synack));

    // La seconda non riceve mai risposta: RST dopo 75 s.
    assert_eq!(s.next_deadline(), Some(t(75_000)));
    s.poll(t(75_000));
    let rst = drain(&mut s).remove(0).tcp();
    assert!(rst.rst && rst.dst.port() == 44003);
    assert!(s.events().iter().any(|e| e.kind
        == EventKind::TcpClosed {
            id: 2,
            reason: CloseReason::Timeout,
            bytes_to_remote: 0,
            bytes_to_guest: 0
        }));
    assert_eq!(s.upstream().relay().sent.last(), Some(&RelayMessage::TcpClose { id: 2, reset: true }));
}

// ---- Connessioni dell'host -------------------------------------------------

const PORT: u16 = 5555;

/// Stack che conosce già il MAC del guest (dal suo primo frame, come dopo
/// il DHCP): i segmenti verso il guest vanno al suo MAC.
fn host_stack() -> Stack<Sinkhole> {
    let mut s = Stack::new(config(), Sinkhole::new(SinkholeConfig::default()));
    s.receive(t(0), &Guest::arp_request(GW_IP));
    assert_eq!(drain(&mut s).len(), 1);
    s
}

fn segs(s: &mut Stack<Sinkhole>) -> Vec<TcpSeg> {
    drain(s).into_iter().map(Out::tcp).collect()
}

fn only(s: &mut Stack<Sinkhole>) -> TcpSeg {
    let mut v = segs(s);
    assert_eq!(v.len(), 1, "atteso un segmento: {v:?}");
    v.remove(0)
}

fn state(s: &Stack<Sinkhole>, id: ConnId) -> HostConnState {
    s.host_conn(id).expect("connessione dell'host").state
}

/// Il servizio del guest: un `Client` del finto guest con la porta del
/// servizio come sorgente e il gateway come destinazione.
fn server_for(syn: &TcpSeg) -> Client {
    assert!(syn.syn && syn.ack.is_none() && !syn.rst, "atteso SYN: {syn:?}");
    let mut c = Client::new(syn.dst.port(), syn.src);
    c.seq = 7_000_000;
    c.ack = syn.seq.wrapping_add(1);
    c
}

/// Handshake completo verso la porta del guest; restituisce id e server.
fn open(s: &mut Stack<Sinkhole>, now: u64) -> (ConnId, Client) {
    let id = s.host_connect(PORT).unwrap();
    assert_eq!(state(s, id), HostConnState::Connecting);
    assert!(drain(s).is_empty(), "il SYN parte al poll");
    s.poll(t(now));
    let syn = only(s);
    let mut g = server_for(&syn);
    s.receive(t(now), &g.segment(g.seq, F_SYN | F_ACK, b""));
    g.seq = g.seq.wrapping_add(1);
    let ack = only(s);
    assert_eq!((ack.seq, ack.ack, ack.syn), (syn.seq.wrapping_add(1), Some(g.seq), false));
    assert_eq!(state(s, id), HostConnState::Open);
    (id, g)
}

/// Il guest prende e riscontra tutto ciò che lo stack gli manda, finché
/// lo stack tace. Restituisce i byte ricevuti e se è arrivato il FIN.
fn guest_takes(s: &mut Stack<Sinkhole>, g: &mut Client, now: u64) -> (Vec<u8>, bool) {
    let (mut data, mut fin) = (Vec::new(), false);
    loop {
        let out = segs(s);
        if out.is_empty() {
            return (data, fin);
        }
        for seg in out {
            if seg.payload.is_empty() && !seg.fin {
                continue;
            }
            g.take(&seg);
            data.extend_from_slice(&seg.payload);
            fin |= seg.fin;
        }
        s.receive(t(now), &g.ack_now());
    }
}

#[test]
fn handshake_dal_gateway_come_qemu() {
    let mut s = host_stack();
    let id = s.host_connect(PORT).unwrap();
    s.poll(t(5));
    let syn = only(&mut s);
    assert_eq!(syn.src, SocketAddrV4::new(GW_IP, 49152), "dal gateway, prima porta effimera");
    assert_eq!(syn.dst, SocketAddrV4::new(GUEST_IP, PORT));
    assert_eq!((syn.mss, syn.window), (Some(1460), 65_535));
    let g = server_for(&syn);
    s.receive(t(6), &g.segment(g.seq, F_SYN | F_ACK, b""));
    let ack = only(&mut s);
    assert!(!ack.syn && !ack.fin && ack.payload.is_empty());
    assert_eq!(ack.ack, Some(g.seq + 1), "ACK del SYN del guest");
    let info = s.host_conn(id).unwrap();
    assert_eq!(info.state, HostConnState::Open);
    assert_eq!((info.readable, info.writable, info.guest_eof), (0, HOST_BUFFER, false));
    let flow = Flow { guest: syn.dst, remote: syn.src };
    assert_eq!(
        s.events().iter().map(|e| (e.at, e.kind.clone())).collect::<Vec<_>>(),
        [(t(5), EventKind::TcpConnect { id, flow }), (t(6), EventKind::TcpEstablished { id })]
    );
    assert_eq!(s.events()[0].to_string(), "[     0.005000] tcp 1 dall'host 10.0.2.2:49152 -> 10.0.2.15:5555");
    // La seconda connessione prende la porta effimera successiva.
    s.host_connect(PORT).unwrap();
    s.poll(t(7));
    assert_eq!(only(&mut s).src.port(), 49153);
}

#[test]
fn eco_di_200_kb_oltre_la_finestra() {
    let mut s = host_stack();
    let (id, mut g) = open(&mut s, 0);
    let data: Vec<u8> = (0..200_000u32).map(|i| (i.wrapping_mul(2_654_435_761) >> 11) as u8).collect();
    let (mut sent, mut echoed, mut now) = (0, Vec::new(), 1);
    let mut buf = vec![0u8; 70_000];
    while echoed.len() < data.len() {
        now += 1;
        assert!(now < 10_000, "eco ferma a {} byte", echoed.len());
        sent += s.host_send(id, &data[sent..]);
        s.poll(t(now));
        // Il guest riceve (al più un segmento da MSS alla volta, entro la
        // sua finestra) e rimanda indietro gli stessi byte.
        let (got, fin) = guest_takes(&mut s, &mut g, now);
        assert!(!fin);
        for chunk in got.chunks(1460) {
            s.receive(t(now), &g.send(chunk));
            let acks = segs(&mut s);
            assert!(acks.iter().any(|a| a.ack == Some(g.seq)), "{acks:?}");
        }
        let n = s.host_recv(id, &mut buf);
        echoed.extend_from_slice(&buf[..n]);
    }
    assert_eq!(echoed, data, "eco byte per byte");
    let to_guest: usize = s
        .events()
        .iter()
        .filter_map(|e| match e.kind {
            EventKind::TcpData { dir: Direction::ToGuest, len, .. } => Some(len),
            _ => None,
        })
        .sum();
    assert_eq!(to_guest, data.len());
    assert_eq!(s.stats().bad_checksum, 0);
}

#[test]
fn contropressione_verso_l_host() {
    let mut s = host_stack();
    let (id, mut g) = open(&mut s, 0);
    // Il guest manda più di quanto l'host tenga in coda: la finestra si
    // chiude quando buffer della connessione e coda dell'host sono pieni.
    let chunk = vec![0x5a; 1460];
    let start = g.seq;
    let mut last_window = u16::MAX;
    for _ in 0..400 {
        s.receive(t(1), &g.send(&chunk));
        let ack = only(&mut s);
        last_window = ack.window;
        // Ciò che non è stato preso il guest lo rimanderà.
        g.seq = ack.ack.unwrap();
        if ack.window == 0 {
            break;
        }
    }
    let accepted = g.seq.wrapping_sub(start) as usize;
    assert_eq!(last_window, 0, "finestra chiusa");
    let info = s.host_conn(id).unwrap();
    assert_eq!(info.readable, HOST_BUFFER);
    assert_eq!(accepted, HOST_BUFFER + 65_535, "coda dell'host più finestra massima");
    // L'host legge: al poll la finestra si riapre con un aggiornamento.
    let mut buf = vec![0u8; 100_000];
    assert_eq!(s.host_recv(id, &mut buf), 100_000);
    s.poll(t(2));
    let upd = only(&mut s);
    assert_eq!((upd.ack, upd.window), (Some(g.seq), 65_535));
    assert_eq!(s.host_conn(id).unwrap().readable, HOST_BUFFER - 100_000 + 65_535);
}

#[test]
fn chiusura_dall_host_con_time_wait() {
    let mut s = host_stack();
    let (id, mut g) = open(&mut s, 0);
    assert_eq!(s.host_send(id, b"ciao"), 4);
    s.host_shutdown(id);
    assert_eq!(s.host_send(id, b"x"), 0, "verso chiuso");
    s.poll(t(1));
    let (got, fin) = guest_takes(&mut s, &mut g, 1);
    assert_eq!((got.as_slice(), fin), (&b"ciao"[..], true));
    // Il guest risponde e chiude.
    s.receive(t(2), &g.send(b"ciao"));
    assert_eq!(only(&mut s).ack, Some(g.seq));
    s.receive(t(2), &g.fin());
    assert_eq!(only(&mut s).ack, Some(g.seq), "ACK del FIN del guest");
    let mut buf = [0u8; 16];
    assert_eq!(s.host_recv(id, &mut buf), 4);
    let info = s.host_conn(id).unwrap();
    assert!(info.guest_eof);
    assert_eq!(info.state, HostConnState::Open, "TIME-WAIT: ancora viva");
    s.poll(t(4002));
    assert_eq!(state(&s, id), HostConnState::Closed(CloseReason::Normal));
    assert!(s.events().iter().any(|e| e.kind
        == EventKind::TcpClosed { id, reason: CloseReason::Normal, bytes_to_remote: 4, bytes_to_guest: 4 }));
    s.host_release(id);
    assert!(s.host_conn(id).is_none());
}

#[test]
fn chiusura_dal_guest() {
    let mut s = host_stack();
    let (id, mut g) = open(&mut s, 0);
    s.receive(t(1), &g.send(b"addio"));
    let _ = segs(&mut s);
    s.receive(t(1), &g.fin());
    let _ = segs(&mut s);
    let info = s.host_conn(id).unwrap();
    assert!(!info.guest_eof, "prima i dati");
    let mut buf = [0u8; 16];
    assert_eq!(s.host_recv(id, &mut buf), 5);
    assert!(s.host_conn(id).unwrap().guest_eof);
    s.host_shutdown(id);
    s.poll(t(2));
    let fin = only(&mut s);
    assert!(fin.fin);
    g.take(&fin);
    s.receive(t(3), &g.ack_now());
    assert_eq!(state(&s, id), HostConnState::Closed(CloseReason::Normal));
    assert_eq!(s.tcp_connections(), 0);
}

#[test]
fn nessuno_in_ascolto_rifiutata() {
    let mut s = host_stack();
    let id = s.host_connect(PORT).unwrap();
    s.poll(t(1));
    let syn = only(&mut s);
    // Linux risponde RST|ACK a un SYN verso una porta chiusa.
    let mut g = server_for(&syn);
    s.receive(t(1), &g.segment(0, F_RST | F_ACK, b""));
    assert_eq!(state(&s, id), HostConnState::Closed(CloseReason::Refused));
    assert!(drain(&mut s).is_empty());
    assert_eq!(s.tcp_connections(), 0);
    assert_eq!(s.host_send(id, b"x"), 0);
    // Un RST con ACK sbagliato si ignora.
    let id2 = s.host_connect(PORT).unwrap();
    s.poll(t(2));
    let syn2 = only(&mut s);
    g = server_for(&syn2);
    g.ack = g.ack.wrapping_add(10);
    s.receive(t(2), &g.segment(0, F_RST | F_ACK, b""));
    assert_eq!(state(&s, id2), HostConnState::Connecting);
}

#[test]
fn syn_ritrasmesso_poi_timeout() {
    let mut s = host_stack();
    let id = s.host_connect(PORT).unwrap();
    s.poll(t(0));
    let first = only(&mut s);
    assert_eq!(s.next_deadline(), Some(t(1000)), "RTO iniziale 1 s");
    s.poll(t(1000));
    let again = only(&mut s);
    assert_eq!((again.seq, again.syn), (first.seq, true));
    assert_eq!(s.next_deadline(), Some(t(3000)), "RTO raddoppiato");
    // Nessuna risposta per 75 s: si rinuncia senza RST.
    let mut now = 3000;
    while state(&s, id) == HostConnState::Connecting {
        now = s.next_deadline().unwrap().as_micros() / 1000;
        assert!(now <= 75_000);
        s.poll(t(now));
        assert!(segs(&mut s).iter().all(|x| x.syn && !x.rst));
    }
    assert_eq!(now, 75_000);
    assert_eq!(state(&s, id), HostConnState::Closed(CloseReason::Timeout));
}

#[test]
fn reset_dall_host_e_dal_guest() {
    let mut s = host_stack();
    let (id, g) = open(&mut s, 0);
    s.host_send(id, b"dati");
    s.host_abort(id);
    s.poll(t(1));
    let rst = only(&mut s);
    assert!(rst.rst && rst.payload.is_empty(), "{rst:?}");
    assert_eq!(rst.seq, g.ack, "RST con la sequenza attesa dal guest");
    assert_eq!(state(&s, id), HostConnState::Closed(CloseReason::RemoteReset));

    let (id, g) = open(&mut s, 2);
    s.receive(t(3), &g.segment(g.seq, F_RST, b""));
    assert_eq!(state(&s, id), HostConnState::Closed(CloseReason::GuestReset));
    assert!(drain(&mut s).is_empty());

    // Rilascio di una connessione viva: RST e sparisce.
    let (id, _) = open(&mut s, 4);
    s.host_release(id);
    assert!(s.host_conn(id).is_some(), "fino al poll");
    s.poll(t(5));
    assert!(only(&mut s).rst);
    assert!(s.host_conn(id).is_none());
    // Interrotta prima del SYN: nessun pacchetto.
    let id = s.host_connect(PORT).unwrap();
    s.host_abort(id);
    s.poll(t(6));
    assert!(drain(&mut s).is_empty());
    assert_eq!(state(&s, id), HostConnState::Closed(CloseReason::RemoteReset));
}

#[test]
fn hostfwd_deterministico() {
    let run = || {
        let mut s = host_stack();
        let (id, mut g) = open(&mut s, 0);
        s.host_send(id, &[7u8; 5000]);
        s.poll(t(1));
        let frames: Vec<TcpSeg> = segs(&mut s);
        for f in &frames {
            g.take(f);
        }
        s.receive(t(2), &g.ack_now());
        (frames, format!("{:?}", s.events()))
    };
    assert_eq!(run(), run());
}

/// Un giro di DHCP e una connessione TCP a metà: lo stack salvato e
/// ripristinato in uno nuovo dà gli stessi campi e, dagli stessi frame, le
/// stesse risposte e lo stesso registro.
#[test]
fn stack_ripristinato_prosegue_uguale() {
    let cfg = NetConfig { seed: 7, ..NetConfig::default() };
    let mut a = Stack::new(cfg.clone(), Sinkhole::new(SinkholeConfig::default()));
    let guest = Mac::new([0x52, 0x54, 0, 0x12, 0x34, 0x56]);
    let t0 = VirtualTime::from_millis(5);
    let remote = Ipv4Addr::new(198, 18, 0, 9);
    let seg = wire::build_tcp(&TcpOut {
        src: cfg.guest_ip,
        src_port: 40000,
        dst: remote,
        dst_port: 80,
        seq: 1000,
        ack: 0,
        flags: wire::TCP_SYN,
        window: 64240,
        mss: Some(1460),
        payload: b"",
    });
    let ip = wire::build_ipv4(cfg.guest_ip, remote, wire::PROTO_TCP, 1, &seg);
    let syn = wire::build_eth(cfg.gateway_mac, guest, wire::ETHERTYPE_IPV4, &ip);
    a.receive(t0, &syn);
    assert!(a.pending_frames() > 0, "SYN-ACK in uscita");
    assert_eq!(a.tcp_connections(), 1);
    assert!(matches!(a.events()[0].kind, EventKind::TcpOpen { .. }));

    let fields = a.save();
    let mut b = Stack::new(cfg, Sinkhole::new(SinkholeConfig::default()));
    let mut r = Cursor::new(fields.clone());
    b.restore(&mut r).unwrap();
    assert!(r.is_done());
    assert_eq!(b.save(), fields);

    // Da qui in poi i due stack vanno di pari passo, timer compresi.
    assert_eq!(a.next_deadline(), b.next_deadline());
    let later = VirtualTime::from_secs(3);
    a.poll(later);
    b.poll(later);
    let (mut fa, mut fb) = (Vec::new(), Vec::new());
    while let Some(f) = a.pop_frame() {
        fa.push(f);
    }
    while let Some(f) = b.pop_frame() {
        fb.push(f);
    }
    assert!(fa.len() >= 2, "SYN-ACK e ritrasmissione");
    assert_eq!(fa, fb);
    assert_eq!(a.events(), b.events());
}

fn copied(s: &Stack<Sinkhole>) -> Stack<Sinkhole> {
    let fields = s.save();
    let mut n = Stack::new(config(), Sinkhole::new(SinkholeConfig::default()));
    let mut r = Cursor::new(fields.clone());
    n.restore(&mut r).unwrap();
    assert!(r.is_done());
    assert_eq!(n.save(), fields, "risalvataggio");
    n
}

/// Uno snapshot a connessione aperta riparte e prosegue allo stesso modo
/// (frame, stato dell'host, registro).
#[test]
fn snapshot_a_meta_connessione() {
    let mut a = host_stack();
    let pending = a.host_connect(PORT).unwrap();
    let mut b = copied(&a);
    assert_eq!(b.host_conn(pending), a.host_conn(pending));
    a.poll(t(1));
    b.poll(t(1));
    assert_eq!(segs(&mut a), segs(&mut b), "il SYN parte anche dalla copia");
    a.host_abort(pending);
    a.poll(t(1));
    let _ = segs(&mut a);

    let (id, mut g) = open(&mut a, 2);
    a.host_send(id, &[3u8; 100_000]);
    a.poll(t(3));
    for f in &segs(&mut a) {
        g.take(f);
    }
    a.receive(t(3), &g.send(b"dal guest"));
    let _ = segs(&mut a);
    let mut b = copied(&a);
    assert_eq!(b.host_conn(id), a.host_conn(id));
    assert_eq!(b.next_deadline(), a.next_deadline());
    let ack = g.ack_now();
    for s in [&mut a, &mut b] {
        s.receive(t(4), &ack);
        s.host_shutdown(id);
        s.poll(t(5));
    }
    assert_eq!(segs(&mut a), segs(&mut b));
    let (mut x, mut y) = ([0u8; 32], [0u8; 32]);
    assert_eq!(a.host_recv(id, &mut x), 9);
    assert_eq!(b.host_recv(id, &mut y), 9);
    assert_eq!(x, y);
    assert_eq!(a.host_conn(id), b.host_conn(id));
    assert_eq!(a.events(), b.events());
}

/// A saved index is taken as it is: a flow that it gives to a connection that is
/// not there opens nothing, and the index is saved again.
#[test]
fn saved_index_comes_back_as_it_was() {
    let dst = SocketAddrV4::new(Ipv4Addr::new(93, 184, 216, 34), 80);
    let mut fields = sinkhole_stack().save();
    assert_eq!(fields[3], Field::Count(0));
    fields[3] = Field::Count(1);
    let row =
        [Field::Ip(GUEST_IP), Field::U16(40_000), Field::Ip(*dst.ip()), Field::U16(80), Field::U64(77)];
    fields.splice(4..4, row);
    let mut s = sinkhole_stack();
    s.restore(&mut Cursor::new(fields.clone())).unwrap();
    assert!(s.is_sound());
    assert_eq!(s.save(), fields);
    s.receive(t(1), &Client::new(40_000, dst).syn());
    assert_eq!(s.tcp.entries.len(), 0);
    s.receive(t(1), &Client::new(40_001, dst).syn());
    assert_eq!(s.tcp.entries.len(), 1);
}

/// A connection in a state that no traffic leads to is restored and saved again.
#[test]
fn unusual_connection_comes_back() {
    let dst = SocketAddrV4::new(Ipv4Addr::new(93, 184, 216, 34), 80);
    let mut a = sinkhole_stack();
    connect(&mut a, 1, 40_000, dst);
    let mut b = sinkhole_stack();
    a.tcp.entries[0].1.t.mss = 7;
    a.tcp.entries[0].1.t.cwnd = 1;
    let fields = a.save();
    b.restore(&mut Cursor::new(fields.clone())).unwrap();
    assert!(b.is_sound());
    assert_eq!(b.save(), fields);
    a.tcp.entries[0].1.t.mss = 0;
    let fields = a.save();
    b.restore(&mut Cursor::new(fields.clone())).unwrap();
    assert!(!b.is_sound());
    assert_eq!(b.save(), fields);
    b.restore(&mut Cursor::new(sinkhole_stack().save())).unwrap();
    assert!(b.is_sound());
    assert_eq!(b.save(), sinkhole_stack().save());
}
