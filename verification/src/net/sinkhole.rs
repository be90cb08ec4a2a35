//! Sinkhole: an upstream that never leaves the machine.
//!
//! It accepts (or refuses, by port) every connection, records the bytes that the
//! guest sends and answers with configurable data. Its DNS resolves every A name
//! to fake deterministic addresses (in order of first request, from 198.18.0.1
//! on, the block reserved for network tests) and remembers the
//! names, so that every connection to a fake address is attributed to the name
//! that the guest had asked for.
use vstd::prelude::*;
use std::collections::{BTreeMap, BTreeSet, VecDeque};
use vstd::utf8::encode_utf8;
use crate::bytes::{drain_into, min_len, push_bytes, queue_bytes, to_vec};
use crate::net::addr::{ConnId, Flow, Ipv4Addr, SocketAddrV4, VirtualTime};
use crate::net::dns::{build_response, parse_query, question_in, response, Query, CLASS_IN, RCODE_NOERROR, RCODE_NOTIMP, TYPE_A};
use crate::net::events::opt_text;
use crate::net::names::{addr_of, assigned, NameTable};
use crate::net::tcp::count64;
use crate::net::upstream::{TcpRead, TcpStatus, Upstream};
use crate::table::{keyed, put, rank, value, without, Table};

verus! {

broadcast use vstd::std_specs::btree::group_btree_axioms;

/// Answer configured for the TCP connections to a port.
#[derive(Clone, Debug, PartialEq, Eq)]
pub struct TcpReply {
    /// Bytes sent right after the opening (a banner, like SMTP or SSH).
    pub on_connect: Vec<u8>,
    /// Bytes sent once, after the first block of data of the guest.
    pub on_data: Vec<u8>,
    /// Closes the direction to the guest (FIN) after the configured answers:
    /// after `on_data` if it is not empty, else right after `on_connect`.
    pub close_after_reply: bool,
}

/// What a [`TcpReply`] says.
#[verifier::ext_equal]
pub struct Script {
    pub on_connect: Seq<u8>,
    pub on_data: Seq<u8>,
    pub close_after_reply: bool,
}

impl View for TcpReply {
    type V = Script;

    open spec fn view(&self) -> Script {
        Script {
            on_connect: self.on_connect@,
            on_data: self.on_data@,
            close_after_reply: self.close_after_reply,
        }
    }
}

impl Default for TcpReply {
    fn default() -> (r: Self)
        ensures
            r@ == (Script {
                on_connect: Seq::empty(),
                on_data: Seq::empty(),
                close_after_reply: false,
            }),
    {
        TcpReply { on_connect: Vec::new(), on_data: Vec::new(), close_after_reply: false }
    }
}

impl TcpReply {
    /// A minimal and empty HTTP/1.1 answer, after which the connection closes.
    pub fn http_empty() -> (r: Self)
        ensures
            r@ == (Script {
                on_connect: Seq::empty(),
                on_data: encode_utf8(
                    "HTTP/1.1 200 OK\r\nContent-Length: 0\r\nConnection: close\r\n\r\n"@,
                ),
                close_after_reply: true,
            }),
    {
        TcpReply {
            on_connect: Vec::new(),
            on_data: to_vec(
                "HTTP/1.1 200 OK\r\nContent-Length: 0\r\nConnection: close\r\n\r\n".as_bytes(),
            ),
            close_after_reply: true,
        }
    }

    fn copied(&self) -> (r: Self)
        ensures
            r@ == self@,
    {
        TcpReply {
            on_connect: to_vec(self.on_connect.as_slice()),
            on_data: to_vec(self.on_data.as_slice()),
            close_after_reply: self.close_after_reply,
        }
    }
}

#[derive(Clone, Debug)]
pub struct SinkholeConfig {
    /// Answer for the ports that are not in `tcp_by_port`.
    pub tcp_default: TcpReply,
    pub tcp_by_port: BTreeMap<u16, TcpReply>,
    /// Refused TCP ports (the guest receives RST, "connection refused").
    pub refused_ports: BTreeSet<u16>,
    /// Answer to every UDP datagram that is not DNS (`None`: no answer).
    pub udp_reply: Option<Vec<u8>>,
    /// The virtual DNS server (it must be that of the network's configuration).
    pub dns_server: SocketAddrV4,
    /// The address before the first fake one.
    pub fake_base: Ipv4Addr,
    pub dns_ttl: u32,
    /// Answers the ICMP echoes to any outside address.
    pub answer_ping: bool,
}

impl Default for SinkholeConfig {
    fn default() -> (r: Self)
        ensures
            r.standard(),
    {
        let mut tcp_by_port: BTreeMap<u16, TcpReply> = BTreeMap::new();
        let _ = tcp_by_port.insert(80, TcpReply::http_empty());
        assert(tcp_by_port@.dom() =~= set![80u16]);
        SinkholeConfig {
            tcp_default: TcpReply::default(),
            tcp_by_port,
            refused_ports: BTreeSet::new(),
            udp_reply: None,
            dns_server: SocketAddrV4::new(Ipv4Addr::new(10, 0, 2, 3), 53),
            fake_base: Ipv4Addr::new(198, 18, 0, 0),
            dns_ttl: 300,
            answer_ping: true,
        }
    }
}

impl SinkholeConfig {
    /// The configuration that nobody changed: HTTP on port 80, silence elsewhere.
    pub open spec fn standard(self) -> bool {
        &&& self.tcp_default@ == (Script {
            on_connect: Seq::empty(),
            on_data: Seq::empty(),
            close_after_reply: false,
        })
        &&& self.tcp_by_port@.dom() == set![80u16]
        &&& self.tcp_by_port@[80]@ == (Script {
            on_connect: Seq::empty(),
            on_data: encode_utf8(
                "HTTP/1.1 200 OK\r\nContent-Length: 0\r\nConnection: close\r\n\r\n"@,
            ),
            close_after_reply: true,
        })
        &&& self.refused_ports@ == Set::<u16>::empty()
        &&& self.udp_reply is None
        &&& self.dns_server == (SocketAddrV4 { ip: Ipv4Addr::of(10, 0, 2, 3), port: 53 })
        &&& self.fake_base == Ipv4Addr::of(198, 18, 0, 0)
        &&& self.dns_ttl == 300
        &&& self.answer_ping
    }

    /// The answer for a port.
    pub open spec fn script(self, port: u16) -> Script {
        if self.tcp_by_port@.contains_key(port) {
            self.tcp_by_port@[port]@
        } else {
            self.tcp_default@
        }
    }
}

/// A TCP connection as the sinkhole sees it.
#[derive(Clone, Debug, PartialEq, Eq)]
pub struct TcpRecord {
    pub id: ConnId,
    pub flow: Flow,
    /// DNS name that had resolved to `flow.remote`, if it is a fake address.
    pub hostname: Option<String>,
    pub refused: bool,
    pub opened_at: VirtualTime,
    pub closed_at: Option<VirtualTime>,
    /// Closed with RST or by timeout instead of with FIN.
    pub reset: bool,
    /// The guest has closed its direction.
    pub guest_shutdown: bool,
    /// All the bytes sent by the guest, in order.
    pub from_guest: Vec<u8>,
    /// Bytes handed to the stack for the guest.
    pub to_guest: u64,
}

/// What a [`TcpRecord`] says.
#[verifier::ext_equal]
pub struct Seen {
    pub id: ConnId,
    pub flow: Flow,
    pub hostname: Option<Seq<char>>,
    pub refused: bool,
    pub opened_at: VirtualTime,
    pub closed_at: Option<VirtualTime>,
    pub reset: bool,
    pub guest_shutdown: bool,
    pub from_guest: Seq<u8>,
    pub to_guest: u64,
}

impl View for TcpRecord {
    type V = Seen;

    open spec fn view(&self) -> Seen {
        Seen {
            id: self.id,
            flow: self.flow,
            hostname: opt_text(self.hostname),
            refused: self.refused,
            opened_at: self.opened_at,
            closed_at: self.closed_at,
            reset: self.reset,
            guest_shutdown: self.guest_shutdown,
            from_guest: self.from_guest@,
            to_guest: self.to_guest,
        }
    }
}

/// A UDP flow as the sinkhole sees it.
#[derive(Clone, Debug, PartialEq, Eq)]
pub struct UdpRecord {
    pub id: ConnId,
    pub flow: Flow,
    pub hostname: Option<String>,
    /// The guest's datagrams, each with its instant.
    pub datagrams: Vec<(VirtualTime, Vec<u8>)>,
    pub closed_at: Option<VirtualTime>,
}

/// What a [`UdpRecord`] says.
#[verifier::ext_equal]
pub struct UdpSeen {
    pub id: ConnId,
    pub flow: Flow,
    pub hostname: Option<Seq<char>>,
    pub datagrams: Seq<(VirtualTime, Seq<u8>)>,
    pub closed_at: Option<VirtualTime>,
}

/// Datagrams as instant and bytes.
pub open spec fn timed(s: Seq<(VirtualTime, Vec<u8>)>) -> Seq<(VirtualTime, Seq<u8>)> {
    s.map_values(|d: (VirtualTime, Vec<u8>)| (d.0, d.1@))
}

impl View for UdpRecord {
    type V = UdpSeen;

    open spec fn view(&self) -> UdpSeen {
        UdpSeen {
            id: self.id,
            flow: self.flow,
            hostname: opt_text(self.hostname),
            datagrams: timed(self.datagrams@),
            closed_at: self.closed_at,
        }
    }
}

/// A DNS question that the sinkhole resolved.
#[derive(Clone, Debug, PartialEq, Eq)]
pub struct DnsRecord {
    pub at: VirtualTime,
    pub name: String,
    pub qtype: u16,
    /// Fake address given in the answer (only for A questions).
    pub answer: Option<Ipv4Addr>,
}

/// What a [`DnsRecord`] says.
#[verifier::ext_equal]
pub struct Asked {
    pub at: VirtualTime,
    pub name: Seq<char>,
    pub qtype: u16,
    pub answer: Option<Ipv4Addr>,
}

impl View for DnsRecord {
    type V = Asked;

    open spec fn view(&self) -> Asked {
        Asked { at: self.at, name: self.name@, qtype: self.qtype, answer: self.answer }
    }
}

/// The conversation of a live connection.
#[derive(Debug)]
pub struct TcpRuntime {
    pub reply: TcpReply,
    pub out: VecDeque<u8>,
    pub replied_to_data: bool,
    pub eof: bool,
}

/// What a [`TcpRuntime`] holds.
#[verifier::ext_equal]
pub struct Talk {
    pub reply: Script,
    pub out: Seq<u8>,
    pub replied_to_data: bool,
    pub eof: bool,
}

impl View for TcpRuntime {
    type V = Talk;

    open spec fn view(&self) -> Talk {
        Talk {
            reply: self.reply@,
            out: self.out@,
            replied_to_data: self.replied_to_data,
            eof: self.eof,
        }
    }
}

impl Talk {
    /// The direction to the guest closes once the configured answers are given.
    pub open spec fn settled(self) -> Talk {
        let waiting = self.reply.on_data.len() > 0 && !self.replied_to_data;
        if self.reply.close_after_reply && !waiting { Talk { eof: true, ..self } } else { self }
    }

    /// How a conversation starts.
    pub open spec fn started(reply: Script) -> Talk {
        (Talk { reply, out: reply.on_connect, replied_to_data: false, eof: false }).settled()
    }

    /// The guest has sent something: the first time it is answered.
    pub open spec fn heard(self, data: Seq<u8>) -> Talk {
        if data.len() > 0 && !self.replied_to_data && !self.eof {
            (Talk {
                replied_to_data: true,
                out: self.out + self.reply.on_data,
                ..self
            }).settled()
        } else {
            self
        }
    }
}

impl TcpRuntime {
    fn start(reply: TcpReply) -> (r: TcpRuntime)
        ensures
            r@ == Talk::started(reply@),
    {
        let mut out: VecDeque<u8> = VecDeque::new();
        queue_bytes(&mut out, reply.on_connect.as_slice());
        assert(out@ =~= reply@.on_connect);
        let mut r = TcpRuntime { reply, out, replied_to_data: false, eof: false };
        r.maybe_finish();
        r
    }

    fn maybe_finish(&mut self)
        ensures
            final(self)@ == old(self)@.settled(),
    {
        let waiting_for_data: bool = self.reply.on_data.len() > 0 && !self.replied_to_data;
        if self.reply.close_after_reply && !waiting_for_data {
            self.eof = true;
        }
    }

    fn hear(&mut self, data: &[u8])
        ensures
            final(self)@ == old(self)@.heard(data@),
    {
        if data.len() > 0 && !self.replied_to_data && !self.eof {
            self.replied_to_data = true;
            queue_bytes(&mut self.out, self.reply.on_data.as_slice());
            self.maybe_finish();
        }
    }
}

#[derive(Debug)]
pub struct Sinkhole {
    pub config: SinkholeConfig,
    pub tcp: Table<TcpRecord>,
    pub tcp_runtime: Table<TcpRuntime>,
    pub udp: Table<UdpRecord>,
    pub udp_out: VecDeque<(ConnId, Vec<u8>)>,
    pub dns: Vec<DnsRecord>,
    pub names: NameTable,
    /// Names by fake address.
    pub addrs: Table<String>,
}

/// What a [`Sinkhole`] holds.
#[verifier::ext_equal]
pub struct Hole {
    pub config: SinkholeConfig,
    pub tcp: Seq<(ConnId, Seen)>,
    pub tcp_runtime: Seq<(ConnId, Talk)>,
    pub udp: Seq<(ConnId, UdpSeen)>,
    pub udp_out: Seq<(ConnId, Seq<u8>)>,
    pub dns: Seq<Asked>,
    pub names: Seq<(Seq<char>, Ipv4Addr)>,
    pub addrs: Seq<(u64, Seq<char>)>,
}

pub open spec fn datagrams(s: Seq<(ConnId, Vec<u8>)>) -> Seq<(ConnId, Seq<u8>)> {
    s.map_values(|d: (ConnId, Vec<u8>)| (d.0, d.1@))
}

pub open spec fn asked(s: Seq<DnsRecord>) -> Seq<Asked> {
    s.map_values(|d: DnsRecord| d@)
}

impl Hole {
    /// A sinkhole that has seen nothing yet.
    pub open spec fn fresh(config: SinkholeConfig) -> Hole {
        Hole {
            config,
            tcp: Seq::empty(),
            tcp_runtime: Seq::empty(),
            udp: Seq::empty(),
            udp_out: Seq::empty(),
            dns: Seq::empty(),
            names: Seq::empty(),
            addrs: Seq::empty(),
        }
    }

    /// The name that resolved to an address.
    pub open spec fn name_of(self, ip: Ipv4Addr) -> Option<Seq<char>> {
        if keyed(self.addrs, ip.bits as u64) {
            Some(value(self.addrs, ip.bits as u64))
        } else {
            None
        }
    }

    /// The fake address that the next new name gets.
    pub open spec fn next_fake(self) -> Ipv4Addr {
        Ipv4Addr { bits: ((self.config.fake_base.bits + self.names.len() + 1) % 0x1_0000_0000) as u32 }
    }

    /// The address of a name: the one it has, or the next fake one.
    pub open spec fn resolved(self, name: Seq<char>) -> (Hole, Ipv4Addr) {
        match addr_of(self.names, name) {
            Some(a) => (self, a),
            None => {
                let a = self.next_fake();
                (
                    Hole {
                        names: assigned(self.names, name, a),
                        addrs: put(self.addrs, a.bits as u64, name),
                        ..self
                    },
                    a,
                )
            },
        }
    }

    /// A datagram for the virtual DNS: a question is recorded and answered, an
    /// A name of class IN with its fake address. Other types: the name exists
    /// but has no record, so that the guest falls back to IPv4.
    pub open spec fn dns_answered(self, now: VirtualTime, id: ConnId, data: Seq<u8>) -> Hole {
        match question_in(data) {
            None => self,
            Some(q) => {
                let wants_a = q.opcode == 0 && q.qtype == TYPE_A && q.qclass == CLASS_IN
                    && q.name.len() > 0;
                let (h, answer) = if wants_a {
                    let (h, a) = self.resolved(q.name);
                    (h, Some(a))
                } else {
                    (self, None)
                };
                let rcode = if q.opcode != 0 { RCODE_NOTIMP } else { RCODE_NOERROR };
                let addrs = match answer {
                    Some(a) => seq![a],
                    None => Seq::empty(),
                };
                Hole {
                    dns: h.dns.push(Asked { at: now, name: q.name, qtype: q.qtype, answer }),
                    udp_out: h.udp_out.push((id, response(q, rcode, addrs, h.config.dns_ttl))),
                    ..h
                }
            },
        }
    }

    /// The record of a new connection.
    pub open spec fn first_seen(self, now: VirtualTime, id: ConnId, flow: Flow) -> Seen {
        Seen {
            id,
            flow,
            hostname: self.name_of(flow.remote.ip),
            refused: self.config.refused_ports@.contains(flow.remote.port),
            opened_at: now,
            closed_at: None,
            reset: false,
            guest_shutdown: false,
            from_guest: Seq::empty(),
            to_guest: 0,
        }
    }

    /// The record of `id` replaced.
    pub open spec fn with_tcp(self, id: ConnId, r: Seen) -> Hole {
        Hole { tcp: self.tcp.update(rank(self.tcp, id), (id, r)), ..self }
    }

    pub open spec fn with_talk(self, id: ConnId, t: Talk) -> Hole {
        Hole {
            tcp_runtime: self.tcp_runtime.update(rank(self.tcp_runtime, id), (id, t)),
            ..self
        }
    }
}

impl Default for Sinkhole {
    fn default() -> (r: Self)
        ensures
            r.model().config.standard(),
            r.model() == Hole::fresh(r.model().config),
    {
        Sinkhole::new(SinkholeConfig::default())
    }
}

impl Sinkhole {
    pub fn new(config: SinkholeConfig) -> (r: Self)
        ensures
            r.model() == Hole::fresh(config),
            r.model().attributes(),
            crate::net::names::names_ordered(r.model().names),
    {
        let r = Sinkhole {
            config,
            tcp: Table::new(),
            tcp_runtime: Table::new(),
            udp: Table::new(),
            udp_out: VecDeque::new(),
            dns: Vec::new(),
            names: NameTable::new(),
            addrs: Table::new(),
        };
        assert(datagrams(r.udp_out@) =~= Seq::empty());
        assert(asked(r.dns@) =~= Seq::empty());
        r
    }

    pub fn config(&self) -> (r: &SinkholeConfig)
        ensures
            *r == self.config,
    {
        &self.config
    }

    /// TCP connections in order of opening.
    pub fn tcp_connections(&self) -> (r: Vec<&TcpRecord>)
        ensures
            r@.len() == self.model().tcp.len(),
            forall|i: int| 0 <= i < r@.len() ==> (#[trigger] r@[i])@ == self.model().tcp[i].1,
    {
        let mut v: Vec<&TcpRecord> = Vec::new();
        let mut i: usize = 0;
        while i < self.tcp.entries.len()
            invariant
                i == v@.len() <= self.tcp.entries@.len(),
                forall|k: int| 0 <= k < i ==> (#[trigger] v@[k])@ == self.tcp@[k].1,
            decreases self.tcp.entries@.len() - i,
        {
            v.push(&self.tcp.entries[i].1);
            i += 1;
        }
        v
    }

    pub fn tcp_connection(&self, id: ConnId) -> (r: Option<&TcpRecord>)
        ensures
            match r {
                Some(t) => keyed(self.model().tcp, id) && t@ == value(self.model().tcp, id),
                None => !keyed(self.model().tcp, id),
            },
    {
        self.tcp.get(id)
    }

    /// UDP flows in order of opening.
    pub fn udp_flows(&self) -> (r: Vec<&UdpRecord>)
        ensures
            r@.len() == self.model().udp.len(),
            forall|i: int| 0 <= i < r@.len() ==> (#[trigger] r@[i])@ == self.model().udp[i].1,
    {
        let mut v: Vec<&UdpRecord> = Vec::new();
        let mut i: usize = 0;
        while i < self.udp.entries.len()
            invariant
                i == v@.len() <= self.udp.entries@.len(),
                forall|k: int| 0 <= k < i ==> (#[trigger] v@[k])@ == self.udp@[k].1,
            decreases self.udp.entries@.len() - i,
        {
            v.push(&self.udp.entries[i].1);
            i += 1;
        }
        v
    }

    pub fn dns_queries(&self) -> (r: &[DnsRecord])
        ensures
            asked(r@) == self.model().dns,
    {
        self.dns.as_slice()
    }

    /// Name that resolved to a fake address.
    pub fn hostname(&self, addr: Ipv4Addr) -> (r: Option<&str>)
        ensures
            match r {
                Some(n) => self.model().name_of(addr) == Some(n@),
                None => self.model().name_of(addr) is None,
            },
    {
        match self.addrs.get(addr.bits as u64) {
            Some(n) => Some(n.as_str()),
            None => None,
        }
    }

    /// Fake address given to a name (in lower case).
    pub fn fake_addr(&self, name: &String) -> (r: Option<Ipv4Addr>)
        ensures
            r == addr_of(self.model().names, name@),
    {
        self.names.get(name)
    }

    /// The name of an address, as the records keep it.
    fn name_for(&self, addr: Ipv4Addr) -> (r: Option<String>)
        ensures
            opt_text(r) == self.model().name_of(addr),
    {
        match self.addrs.get(addr.bits as u64) {
            Some(n) => Some(n.clone()),
            None => None,
        }
    }

    /// The address of a name; a new name gets the next fake address.
    pub fn resolve(&mut self, name: &String) -> (r: Ipv4Addr)
        ensures
            (final(self).model(), r) == old(self).model().resolved(name@),
            old(self).model().attributes() && crate::net::names::names_ordered(
                old(self).model().names,
            ) && old(self).model().names.len() < 0xffff_ffff ==> {
                &&& final(self).model().attributes()
                &&& crate::net::names::names_ordered(final(self).model().names)
                &&& addr_of(final(self).model().names, name@) == Some(r)
                &&& final(self).model().name_of(r) == Some(name@)
            },
    {
        proof {
            let h = self.model();
            if h.attributes() && crate::net::names::names_ordered(h.names) && h.names.len()
                < 0xffff_ffff {
                law_names_have_their_own_addresses(h, name@);
            }
        }
        match self.names.get(name) {
            Some(a) => a,
            None => {
                let n: u32 = (self.names.len() as u64 % 0x1_0000_0000) as u32;
                let bits: u32 = self.config.fake_base.bits.wrapping_add(n).wrapping_add(1);
                let a = Ipv4Addr { bits };
                assert(a == self.model().next_fake());
                self.names.insert(name.clone(), a);
                self.addrs.insert(bits as u64, name.clone());
                a
            },
        }
    }

    fn answer_dns(&mut self, now: VirtualTime, id: ConnId, data: &[u8])
        ensures
            final(self).model() == old(self).model().dns_answered(now, id, data@),
    {
        let q: Query = match parse_query(data) {
            Some(q) => q,
            None => {
                return;
            },
        };
        let wants_a: bool = q.opcode == 0 && q.qtype == TYPE_A && q.qclass == CLASS_IN
            && q.name.as_str().unicode_len() > 0;
        let rcode: u8 = if q.opcode != 0 { RCODE_NOTIMP } else { RCODE_NOERROR };
        let mut addrs: Vec<Ipv4Addr> = Vec::new();
        let answer: Option<Ipv4Addr> = if wants_a {
            let a: Ipv4Addr = self.resolve(&q.name);
            addrs.push(a);
            Some(a)
        } else {
            None
        };
        assert(addrs@ =~= (match answer {
            Some(a) => seq![a],
            None => Seq::empty(),
        }));
        let ghost h = self.model();
        self.dns.push(DnsRecord { at: now, name: q.name.clone(), qtype: q.qtype, answer });
        assert(asked(self.dns@) =~= h.dns.push(
            Asked { at: now, name: q.name@, qtype: q.qtype, answer },
        ));
        let reply: Vec<u8> = build_response(&q, rcode, addrs.as_slice(), self.config.dns_ttl);
        self.udp_out.push_back((id, reply));
        assert(datagrams(self.udp_out@) =~= h.udp_out.push((id, reply@)));
    }
}

impl Upstream for Sinkhole {
    type Model = Hole;

    open spec fn model(&self) -> Hole {
        Hole {
            config: self.config,
            tcp: self.tcp@,
            tcp_runtime: self.tcp_runtime@,
            udp: self.udp@,
            udp_out: datagrams(self.udp_out@),
            dns: asked(self.dns@),
            names: self.names@,
            addrs: self.addrs@,
        }
    }

    open spec fn opened(m: Hole, now: VirtualTime, id: ConnId, flow: Flow) -> Hole {
        let r = m.first_seen(now, id, flow);
        Hole {
            tcp: put(m.tcp, id, r),
            tcp_runtime: if r.refused {
                m.tcp_runtime
            } else {
                put(m.tcp_runtime, id, Talk::started(m.config.script(flow.remote.port)))
            },
            ..m
        }
    }

    open spec fn status_next(m: Hole, now: VirtualTime, id: ConnId) -> Hole {
        m
    }

    open spec fn status(m: Hole, now: VirtualTime, id: ConnId) -> TcpStatus {
        if keyed(m.tcp, id) && !value(m.tcp, id).refused {
            TcpStatus::Connected
        } else {
            TcpStatus::Refused
        }
    }

    open spec fn write_next(m: Hole, now: VirtualTime, id: ConnId, data: Seq<u8>) -> Hole {
        let h = if keyed(m.tcp, id) {
            let r = value(m.tcp, id);
            m.with_tcp(id, Seen { from_guest: r.from_guest + data, ..r })
        } else {
            m
        };
        if keyed(m.tcp_runtime, id) {
            h.with_talk(id, value(m.tcp_runtime, id).heard(data))
        } else {
            h
        }
    }

    open spec fn write_count(m: Hole, now: VirtualTime, id: ConnId, data: Seq<u8>) -> usize {
        data.len() as usize
    }

    open spec fn read_next(m: Hole, now: VirtualTime, id: ConnId, room: nat) -> Hole {
        if keyed(m.tcp_runtime, id) && value(m.tcp_runtime, id).out.len() > 0 {
            let t = value(m.tcp_runtime, id);
            let n = min_len(t.out.len(), room);
            let h = m.with_talk(id, Talk { out: t.out.skip(n as int), ..t });
            if keyed(m.tcp, id) {
                let r = value(m.tcp, id);
                h.with_tcp(id, Seen { to_guest: count64(r.to_guest, n), ..r })
            } else {
                h
            }
        } else {
            m
        }
    }

    open spec fn read_result(m: Hole, now: VirtualTime, id: ConnId, room: nat) -> TcpRead {
        if keyed(m.tcp_runtime, id) {
            let t = value(m.tcp_runtime, id);
            if t.out.len() > 0 {
                TcpRead::Data(min_len(t.out.len(), room) as usize)
            } else if t.eof {
                TcpRead::Eof
            } else {
                TcpRead::WouldBlock
            }
        } else {
            TcpRead::Reset
        }
    }

    open spec fn read_data(m: Hole, now: VirtualTime, id: ConnId, room: nat) -> Seq<u8> {
        let t = value(m.tcp_runtime, id);
        t.out.take(min_len(t.out.len(), room) as int)
    }

    open spec fn shut(m: Hole, now: VirtualTime, id: ConnId) -> Hole {
        let h = if keyed(m.tcp, id) {
            m.with_tcp(id, Seen { guest_shutdown: true, ..value(m.tcp, id) })
        } else {
            m
        };
        // Like a server that closes when the client is done.
        if keyed(m.tcp_runtime, id) {
            h.with_talk(id, Talk { eof: true, ..value(m.tcp_runtime, id) })
        } else {
            h
        }
    }

    open spec fn closed(m: Hole, now: VirtualTime, id: ConnId, reset: bool) -> Hole {
        let h = if keyed(m.tcp, id) {
            let r = value(m.tcp, id);
            m.with_tcp(id, Seen { closed_at: Some(now), reset: reset && !r.refused, ..r })
        } else {
            m
        };
        Hole { tcp_runtime: without(h.tcp_runtime, id), ..h }
    }

    open spec fn udp_sent(
        m: Hole,
        now: VirtualTime,
        id: ConnId,
        flow: Flow,
        data: Seq<u8>,
    ) -> Hole {
        let rec = if keyed(m.udp, id) {
            value(m.udp, id)
        } else {
            UdpSeen {
                id,
                flow,
                hostname: m.name_of(flow.remote.ip),
                datagrams: Seq::empty(),
                closed_at: None,
            }
        };
        let h = Hole {
            udp: put(m.udp, id, UdpSeen { datagrams: rec.datagrams.push((now, data)), ..rec }),
            ..m
        };
        if flow.remote == m.config.dns_server {
            h.dns_answered(now, id, data)
        } else {
            match m.config.udp_reply {
                Some(reply) => Hole { udp_out: h.udp_out.push((id, reply@)), ..h },
                None => h,
            }
        }
    }

    open spec fn udp_next(m: Hole, now: VirtualTime) -> Hole {
        if m.udp_out.len() > 0 { Hole { udp_out: m.udp_out.skip(1), ..m } } else { m }
    }

    open spec fn udp_result(m: Hole, now: VirtualTime) -> Option<(ConnId, Seq<u8>)> {
        if m.udp_out.len() > 0 { Some(m.udp_out[0]) } else { None }
    }

    open spec fn udp_ready(m: Hole) -> nat {
        m.udp_out.len()
    }

    open spec fn udp_closed(m: Hole, now: VirtualTime, id: ConnId) -> Hole {
        if keyed(m.udp, id) {
            Hole {
                udp: m.udp.update(
                    rank(m.udp, id),
                    (id, UdpSeen { closed_at: Some(now), ..value(m.udp, id) }),
                ),
                ..m
            }
        } else {
            m
        }
    }

    open spec fn ping_next(m: Hole, now: VirtualTime, dst: Ipv4Addr) -> Hole {
        m
    }

    open spec fn ping_answer(m: Hole, now: VirtualTime, dst: Ipv4Addr) -> bool {
        m.config.answer_ping
    }

    proof fn read_fits(m: Hole, now: VirtualTime, id: ConnId, room: usize) {
    }

    proof fn udp_drains(m: Hole, now: VirtualTime) {
    }

    fn tcp_open(&mut self, now: VirtualTime, id: ConnId, flow: Flow) {
        let refused: bool = self.config.refused_ports.contains(&flow.remote.port);
        let hostname: Option<String> = self.name_for(flow.remote.ip);
        let rec = TcpRecord {
            id,
            flow,
            hostname,
            refused,
            opened_at: now,
            closed_at: None,
            reset: false,
            guest_shutdown: false,
            from_guest: Vec::new(),
            to_guest: 0,
        };
        assert(rec@ =~= self.model().first_seen(now, id, flow));
        self.tcp.insert(id, rec);
        if !refused {
            let reply: TcpReply = match self.config.tcp_by_port.get(&flow.remote.port) {
                Some(r) => r.copied(),
                None => self.config.tcp_default.copied(),
            };
            assert(reply@ == self.config.script(flow.remote.port));
            self.tcp_runtime.insert(id, TcpRuntime::start(reply));
        }
    }

    fn tcp_status(&mut self, now: VirtualTime, id: ConnId) -> (r: TcpStatus) {
        match self.tcp.get(id) {
            Some(r) => if !r.refused {
                TcpStatus::Connected
            } else {
                TcpStatus::Refused
            },
            None => TcpStatus::Refused,
        }
    }

    fn tcp_write(&mut self, now: VirtualTime, id: ConnId, data: &[u8]) -> (n: usize) {
        match self.tcp.find(id) {
            Some(i) => {
                let r: &mut TcpRecord = self.tcp.slot(i);
                push_bytes(&mut r.from_guest, data);
            },
            None => {},
        }
        match self.tcp_runtime.find(id) {
            Some(i) => {
                let rt: &mut TcpRuntime = self.tcp_runtime.slot(i);
                rt.hear(data);
            },
            None => {},
        }
        data.len()
    }

    fn tcp_read(&mut self, now: VirtualTime, id: ConnId, buf: &mut [u8]) -> (r: TcpRead) {
        match self.tcp_runtime.find(id) {
            None => TcpRead::Reset,
            Some(i) => {
                if self.tcp_runtime.entries[i].1.out.len() == 0 {
                    return if self.tcp_runtime.entries[i].1.eof {
                        TcpRead::Eof
                    } else {
                        TcpRead::WouldBlock
                    };
                }
                let rt: &mut TcpRuntime = self.tcp_runtime.slot(i);
                let n: usize = drain_into(&mut rt.out, buf);
                match self.tcp.find(id) {
                    Some(j) => {
                        let r: &mut TcpRecord = self.tcp.slot(j);
                        r.to_guest = r.to_guest.wrapping_add(n as u64);
                    },
                    None => {},
                }
                TcpRead::Data(n)
            },
        }
    }

    fn tcp_shutdown(&mut self, now: VirtualTime, id: ConnId) {
        match self.tcp.find(id) {
            Some(i) => {
                let r: &mut TcpRecord = self.tcp.slot(i);
                r.guest_shutdown = true;
            },
            None => {},
        }
        match self.tcp_runtime.find(id) {
            Some(i) => {
                let rt: &mut TcpRuntime = self.tcp_runtime.slot(i);
                rt.eof = true;
            },
            None => {},
        }
    }

    fn tcp_close(&mut self, now: VirtualTime, id: ConnId, reset: bool) {
        match self.tcp.find(id) {
            Some(i) => {
                let r: &mut TcpRecord = self.tcp.slot(i);
                r.closed_at = Some(now);
                r.reset = reset && !r.refused;
            },
            None => {},
        }
        let _ = self.tcp_runtime.remove(id);
    }

    fn udp_send(&mut self, now: VirtualTime, id: ConnId, flow: Flow, data: &[u8]) {
        let ghost m = self.model();
        if self.udp.find(id).is_none() {
            let rec = UdpRecord {
                id,
                flow,
                hostname: self.name_for(flow.remote.ip),
                datagrams: Vec::new(),
                closed_at: None,
            };
            assert(timed(rec.datagrams@) =~= Seq::empty());
            self.udp.insert(id, rec);
            proof {
                lemma_put_finds(m.udp, id, rec@);
            }
        }
        match self.udp.find(id) {
            Some(i) => {
                let ghost before = self.udp@;
                let rec: &mut UdpRecord = self.udp.slot(i);
                let ghost seen = rec@;
                rec.datagrams.push((now, to_vec(data)));
                assert(timed(rec.datagrams@) =~= seen.datagrams.push((now, data@)));
                proof {
                    lemma_put_twice(m.udp, id, seen, rec@);
                }
            },
            None => {
                assert(false);
            },
        }
        if flow.remote == self.config.dns_server {
            self.answer_dns(now, id, data);
        } else {
            match &self.config.udp_reply {
                Some(reply) => {
                    let ghost h = self.model();
                    let copy: Vec<u8> = to_vec(reply.as_slice());
                    self.udp_out.push_back((id, copy));
                    assert(datagrams(self.udp_out@) =~= h.udp_out.push((id, copy@)));
                },
                None => {},
            }
        }
    }

    fn udp_recv(&mut self, now: VirtualTime) -> (r: Option<(ConnId, Vec<u8>)>) {
        let ghost m = self.model();
        let r: Option<(ConnId, Vec<u8>)> = self.udp_out.pop_front();
        proof {
            if r is Some {
                assert(datagrams(self.udp_out@) =~= m.udp_out.skip(1));
                assert(m.udp_out[0] == ((r->0).0, (r->0).1@));
            }
        }
        r
    }

    fn udp_close(&mut self, now: VirtualTime, id: ConnId) {
        match self.udp.find(id) {
            Some(i) => {
                let r: &mut UdpRecord = self.udp.slot(i);
                r.closed_at = Some(now);
            },
            None => {},
        }
    }

    fn ping(&mut self, now: VirtualTime, dst: Ipv4Addr) -> (r: bool) {
        self.config.answer_ping
    }
}

proof fn lemma_put_finds<M>(s: Seq<(u64, M)>, id: u64, m: M)
    ensures
        keyed(put(s, id, m), id),
        value(put(s, id, m), id) == m,
        rank(put(s, id, m), id) == rank(s, id),
{
    crate::table::lemma_rank(s, id);
    let t = put(s, id, m);
    let r = rank(s, id);
    assert forall|k: int| 0 <= k < r implies (#[trigger] t[k]).0 < id by {
        assert(t[k] == s[k]);
    }
    crate::table::lemma_rank_at(t, id, r);
}

proof fn lemma_put_twice<M>(s: Seq<(u64, M)>, id: u64, a: M, b: M)
    ensures
        put(s, id, a).update(rank(put(s, id, a), id), (id, b)) == put(s, id, b),
{
    lemma_put_finds(s, id, a);
    crate::table::lemma_rank(s, id);
    assert(put(s, id, a).update(rank(s, id), (id, b)) =~= put(s, id, b));
}

// ---- Laws -------------------------------------------------------------------

impl Hole {
    /// Every name that was given a fake address is found again from it, and the
    /// addresses given so far are the first after the base.
    pub open spec fn attributes(self) -> bool {
        &&& self.names.len() <= 0xffff_ffff
        &&& crate::table::ordered(self.addrs)
        &&& forall|i: int|
            0 <= i < self.names.len() ==> {
                let a = (#[trigger] self.names[i]).1;
                &&& 1 <= (a.bits - self.config.fake_base.bits) % 0x1_0000_0000 <= self.names.len()
                &&& self.name_of(a) == Some(self.names[i].0)
            }
    }
}

/// A connection to a fake address is attributed to the name that was asked for:
/// after a name is resolved, its address leads back to it, and so does that of
/// every name before it.
pub proof fn law_fake_addresses_lead_back(h: Hole, name: Seq<char>)
    requires
        h.attributes(),
        h.names.len() < 0xffff_ffff,
    ensures
        h.resolved(name).0.attributes(),
        h.resolved(name).0.name_of(h.resolved(name).1) == Some(name),
        h.resolved(name).0.resolved(name) == h.resolved(name),
{
    let (g, a) = h.resolved(name);
    match addr_of(h.names, name) {
        Some(_) => {
            crate::net::names::lemma_name_rank(h.names, name);
            let r = crate::net::names::name_rank(h.names, name);
            assert(h.names[r].0 == name);
        },
        None => {
            crate::net::names::law_assigned_name_is_known(h.names, name, a);
            crate::net::names::lemma_name_rank(h.names, name);
            let r = crate::net::names::name_rank(h.names, name);
            let base = h.config.fake_base.bits;
            let n = h.names.len();
            assert((a.bits - base) % 0x1_0000_0000 == n + 1);
            crate::table::law_table_put(h.addrs, a.bits as u64, name, a.bits as u64);
            assert forall|i: int| 0 <= i < g.names.len() implies {
                let b = (#[trigger] g.names[i]).1;
                &&& 1 <= (b.bits - base) % 0x1_0000_0000 <= g.names.len()
                &&& g.name_of(b) == Some(g.names[i].0)
            } by {
                if i != r {
                    let j = if i < r { i } else { i - 1 };
                    assert(g.names[i] == h.names[j]);
                    let b = h.names[j].1;
                    assert(b.bits != a.bits);
                    crate::table::law_table_put(h.addrs, a.bits as u64, name, b.bits as u64);
                }
            }
        },
    }
}

/// A name that was resolved before gets the same address again, a new one the
/// next after the base. Names never share an address, and what was assigned
/// before stays.
pub proof fn law_names_have_their_own_addresses(h: Hole, name: Seq<char>)
    requires
        h.attributes(),
        crate::net::names::names_ordered(h.names),
        h.names.len() < 0xffff_ffff,
    ensures
        ({
            let (g, a) = h.resolved(name);
            &&& g.attributes() && crate::net::names::names_ordered(g.names)
            &&& match addr_of(h.names, name) {
                Some(b) => g == h && a == b,
                None => a.bits == (h.config.fake_base.bits + h.names.len() + 1) % 0x1_0000_0000
                    && g.names.len() == h.names.len() + 1,
            }
            &&& addr_of(g.names, name) == Some(a)
            &&& g.name_of(a) == Some(name)
            &&& forall|other: Seq<char>| #[trigger]
                addr_of(h.names, other) is Some ==> addr_of(g.names, other) == addr_of(
                    h.names,
                    other,
                )
            &&& forall|x: Seq<char>, y: Seq<char>|
                x != y && #[trigger] addr_of(g.names, x) is Some ==> addr_of(g.names, x)
                    != #[trigger] addr_of(g.names, y)
        }),
{
    let (g, a) = h.resolved(name);
    law_fake_addresses_lead_back(h, name);
    crate::net::names::lemma_name_rank(h.names, name);
    crate::net::names::lemma_assigned_ordered(h.names, name, a);
    crate::net::names::law_assigned_name_is_known(h.names, name, a);
    assert forall|other: Seq<char>| #[trigger] addr_of(h.names, other) is Some implies addr_of(
        g.names,
        other,
    ) == addr_of(h.names, other) by {
        if addr_of(h.names, name) is None {
            crate::net::names::law_other_names_stay(h.names, name, a, other);
        }
    }
    assert forall|x: Seq<char>, y: Seq<char>|
        x != y && #[trigger] addr_of(g.names, x) is Some implies addr_of(g.names, x)
        != #[trigger] addr_of(g.names, y) by {
        crate::net::names::lemma_name_rank(g.names, x);
        crate::net::names::lemma_name_rank(g.names, y);
        let i = crate::net::names::name_rank(g.names, x);
        let j = crate::net::names::name_rank(g.names, y);
        assert(g.name_of(g.names[i].1) == Some(x));
        if addr_of(g.names, y) is Some {
            assert(g.name_of(g.names[j].1) == Some(y));
        }
    }
}

/// A new sinkhole attributes nothing yet.
pub proof fn law_new_sinkhole_attributes(h: Hole)
    requires
        h.names.len() == 0,
        h.addrs.len() == 0,
    ensures
        h.attributes(),
{
}

/// Whatever pieces it comes in, what the guest writes is recorded whole and in
/// order.
pub proof fn law_writes_are_recorded_in_order(
    m: Hole,
    now: VirtualTime,
    later: VirtualTime,
    id: ConnId,
    a: Seq<u8>,
    b: Seq<u8>,
)
    requires
        keyed(m.tcp, id),
    ensures
        ({
            let after = Sinkhole::write_next(Sinkhole::write_next(m, now, id, a), later, id, b);
            &&& keyed(after.tcp, id)
            &&& value(after.tcp, id).from_guest == value(m.tcp, id).from_guest + a + b
            &&& Sinkhole::write_count(m, now, id, a) == a.len() as usize
        }),
{
    let one = Sinkhole::write_next(m, now, id, a);
    let two = Sinkhole::write_next(one, later, id, b);
    crate::table::lemma_rank(m.tcp, id);
    let r = rank(m.tcp, id);
    assert forall|k: int| 0 <= k < r implies (#[trigger] one.tcp[k]).0 < id by {
        assert(one.tcp[k] == m.tcp[k]);
    }
    crate::table::lemma_rank_at(one.tcp, id, r);
    assert forall|k: int| 0 <= k < r implies (#[trigger] two.tcp[k]).0 < id by {
        assert(two.tcp[k] == one.tcp[k]);
    }
    crate::table::lemma_rank_at(two.tcp, id, r);
}

/// A refused port is refused, and nothing is ever said on it.
pub proof fn law_refused_ports_are_refused(
    m: Hole,
    now: VirtualTime,
    id: ConnId,
    flow: Flow,
    room: nat,
)
    requires
        m.config.refused_ports@.contains(flow.remote.port),
        !keyed(m.tcp_runtime, id),
    ensures
        Sinkhole::status(Sinkhole::opened(m, now, id, flow), now, id) == TcpStatus::Refused,
        Sinkhole::read_result(Sinkhole::opened(m, now, id, flow), now, id, room) == TcpRead::Reset,
{
    lemma_put_finds(m.tcp, id, m.first_seen(now, id, flow));
}

} // verus!
