//! Log of the network events, for the analysis engine.
//!
//! Every event carries the virtual time at which it happened. The log holds
//! metadata (who, when, how many bytes); the upstream keeps the bytes.
use vstd::prelude::*;
use crate::net::addr::{ConnId, Flow, Ipv4Addr, Mac, VirtualTime};
use crate::text::{count, decimal, hex16, number, padded, push_count, push_decimal_padded, push_hex16, push_number, push_text};

verus! {

/// Direction of data.
#[derive(Clone, Copy, Debug, PartialEq, Eq, Structural)]
pub enum Direction {
    /// From the guest to the remote destination.
    ToRemote,
    /// From the remote destination to the guest.
    ToGuest,
}

/// Why a connection ended.
#[derive(Clone, Copy, Debug, PartialEq, Eq, Structural)]
pub enum CloseReason {
    /// FIN in both directions, everything acknowledged.
    Normal,
    /// RST sent by the guest.
    GuestReset,
    /// The upstream (or the host, for connections that the host opened) has
    /// broken the connection (RST to the guest).
    RemoteReset,
    /// The upstream has refused the connection (RST to the guest's SYN); for
    /// connections that the host opened, the guest answered the SYN with RST.
    Refused,
    /// The guest no longer answers, or the upstream took too long.
    Timeout,
    /// UDP flow idle for too long.
    Idle,
}

/// DHCP messages that are logged.
#[derive(Clone, Copy, Debug, PartialEq, Eq, Structural)]
pub enum DhcpMessage {
    Offer,
    Ack,
    Nak,
    Release,
    Decline,
}

#[derive(Clone, Debug, PartialEq, Eq)]
pub enum EventKind {
    /// DHCP exchange: the gateway sends Offer/Ack/Nak, the guest
    /// Release/Decline. `hostname` is option 12 of the client.
    Dhcp { message: DhcpMessage, mac: Mac, ip: Ipv4Addr, hostname: Option<String> },
    /// ICMP echo of the guest towards `dst`; `answered` if the answer left.
    IcmpEcho { dst: Ipv4Addr, answered: bool },
    /// SYN of the guest received: the connection exists from here on.
    TcpOpen { id: ConnId, flow: Flow },
    /// The host opens a connection towards a service of the guest: SYN from
    /// the gateway to `flow.guest`, from `flow.remote`.
    TcpConnect { id: ConnId, flow: Flow },
    /// Handshake completed.
    TcpEstablished { id: ConnId },
    /// New bytes (never counted before) in one direction.
    TcpData { id: ConnId, dir: Direction, len: usize },
    TcpClosed { id: ConnId, reason: CloseReason, bytes_to_remote: u64, bytes_to_guest: u64 },
    /// First datagram of a UDP flow.
    UdpOpen { id: ConnId, flow: Flow },
    UdpData { id: ConnId, dir: Direction, len: usize },
    UdpClosed { id: ConnId, reason: CloseReason, bytes_to_remote: u64, bytes_to_guest: u64 },
    /// DNS question of the guest to the virtual DNS server.
    DnsQuery { id: ConnId, txid: u16, name: String, qtype: u16 },
    /// DNS answer delivered to the guest (only the A records are extracted).
    DnsAnswer {
        id: ConnId,
        txid: u16,
        name: String,
        qtype: u16,
        rcode: u8,
        addrs: Vec<Ipv4Addr>,
    },
}

#[derive(Clone, Debug, PartialEq, Eq)]
pub struct NetEvent {
    pub at: VirtualTime,
    pub kind: EventKind,
}

/// What an [`EventKind`] says.
#[verifier::ext_equal]
pub enum Fact {
    Dhcp { message: DhcpMessage, mac: Mac, ip: Ipv4Addr, hostname: Option<Seq<char>> },
    IcmpEcho { dst: Ipv4Addr, answered: bool },
    TcpOpen { id: ConnId, flow: Flow },
    TcpConnect { id: ConnId, flow: Flow },
    TcpEstablished { id: ConnId },
    TcpData { id: ConnId, dir: Direction, len: usize },
    TcpClosed { id: ConnId, reason: CloseReason, bytes_to_remote: u64, bytes_to_guest: u64 },
    UdpOpen { id: ConnId, flow: Flow },
    UdpData { id: ConnId, dir: Direction, len: usize },
    UdpClosed { id: ConnId, reason: CloseReason, bytes_to_remote: u64, bytes_to_guest: u64 },
    DnsQuery { id: ConnId, txid: u16, name: Seq<char>, qtype: u16 },
    DnsAnswer {
        id: ConnId,
        txid: u16,
        name: Seq<char>,
        qtype: u16,
        rcode: u8,
        addrs: Seq<Ipv4Addr>,
    },
}

/// What a [`NetEvent`] says.
#[verifier::ext_equal]
pub struct Event {
    pub at: VirtualTime,
    pub kind: Fact,
}

impl View for EventKind {
    type V = Fact;

    open spec fn view(&self) -> Fact {
        match *self {
            EventKind::Dhcp { message, mac, ip, hostname } => Fact::Dhcp {
                message,
                mac,
                ip,
                hostname: opt_text(hostname),
            },
            EventKind::IcmpEcho { dst, answered } => Fact::IcmpEcho { dst, answered },
            EventKind::TcpOpen { id, flow } => Fact::TcpOpen { id, flow },
            EventKind::TcpConnect { id, flow } => Fact::TcpConnect { id, flow },
            EventKind::TcpEstablished { id } => Fact::TcpEstablished { id },
            EventKind::TcpData { id, dir, len } => Fact::TcpData { id, dir, len },
            EventKind::TcpClosed { id, reason, bytes_to_remote, bytes_to_guest } => Fact::TcpClosed {
                id,
                reason,
                bytes_to_remote,
                bytes_to_guest,
            },
            EventKind::UdpOpen { id, flow } => Fact::UdpOpen { id, flow },
            EventKind::UdpData { id, dir, len } => Fact::UdpData { id, dir, len },
            EventKind::UdpClosed { id, reason, bytes_to_remote, bytes_to_guest } => Fact::UdpClosed {
                id,
                reason,
                bytes_to_remote,
                bytes_to_guest,
            },
            EventKind::DnsQuery { id, txid, name, qtype } => Fact::DnsQuery {
                id,
                txid,
                name: name@,
                qtype,
            },
            EventKind::DnsAnswer { id, txid, name, qtype, rcode, addrs } => Fact::DnsAnswer {
                id,
                txid,
                name: name@,
                qtype,
                rcode,
                addrs: addrs@,
            },
        }
    }
}

/// The characters of an optional string.
pub open spec fn opt_text(s: Option<String>) -> Option<Seq<char>> {
    match s {
        Some(t) => Some(t@),
        None => None,
    }
}

impl View for NetEvent {
    type V = Event;

    open spec fn view(&self) -> Event {
        Event { at: self.at, kind: self.kind@ }
    }
}

/// What a list of events says.
pub open spec fn facts(log: Seq<NetEvent>) -> Seq<Event> {
    log.map_values(|e: NetEvent| e@)
}

/// Appends an event.
pub fn push_event(log: &mut Vec<NetEvent>, at: VirtualTime, kind: EventKind)
    ensures
        facts(final(log)@) == facts(old(log)@).push(Event { at, kind: kind@ }),
{
    log.push(NetEvent { at, kind });
    assert(facts(log@) =~= facts(old(log)@).push(Event { at, kind: kind@ }));
}

// ---- Text -------------------------------------------------------------------

impl Direction {
    pub open spec fn text(self) -> Seq<char> {
        match self {
            Direction::ToRemote => "guest->remoto"@,
            Direction::ToGuest => "remoto->guest"@,
        }
    }

    fn name(self) -> (r: &'static str)
        ensures
            r@ == self.text(),
    {
        match self {
            Direction::ToRemote => "guest->remoto",
            Direction::ToGuest => "remoto->guest",
        }
    }
}

impl CloseReason {
    pub open spec fn text(self) -> Seq<char> {
        match self {
            CloseReason::Normal => "Normal"@,
            CloseReason::GuestReset => "GuestReset"@,
            CloseReason::RemoteReset => "RemoteReset"@,
            CloseReason::Refused => "Refused"@,
            CloseReason::Timeout => "Timeout"@,
            CloseReason::Idle => "Idle"@,
        }
    }

    fn name(self) -> (r: &'static str)
        ensures
            r@ == self.text(),
    {
        match self {
            CloseReason::Normal => "Normal",
            CloseReason::GuestReset => "GuestReset",
            CloseReason::RemoteReset => "RemoteReset",
            CloseReason::Refused => "Refused",
            CloseReason::Timeout => "Timeout",
            CloseReason::Idle => "Idle",
        }
    }
}

impl DhcpMessage {
    pub open spec fn text(self) -> Seq<char> {
        match self {
            DhcpMessage::Offer => "Offer"@,
            DhcpMessage::Ack => "Ack"@,
            DhcpMessage::Nak => "Nak"@,
            DhcpMessage::Release => "Release"@,
            DhcpMessage::Decline => "Decline"@,
        }
    }

    fn name(self) -> (r: &'static str)
        ensures
            r@ == self.text(),
    {
        match self {
            DhcpMessage::Offer => "Offer",
            DhcpMessage::Ack => "Ack",
            DhcpMessage::Nak => "Nak",
            DhcpMessage::Release => "Release",
            DhcpMessage::Decline => "Decline",
        }
    }
}

/// Virtual time in seconds, with six decimals.
pub open spec fn instant_text(at: VirtualTime) -> Seq<char> {
    "["@ + padded(decimal((at.0 / 1_000_000) as nat), ' ', 6) + "."@ + padded(
        decimal((at.0 % 1_000_000) as nat),
        '0',
        6,
    ) + "] "@
}

fn push_instant(s: &mut String, at: VirtualTime)
    ensures
        final(s)@ == old(s)@ + instant_text(at),
{
    push_text(s, "[");
    push_decimal_padded(s, at.0 / 1_000_000, ' ', 6);
    push_text(s, ".");
    push_decimal_padded(s, at.0 % 1_000_000, '0', 6);
    push_text(s, "] ");
    assert(s@ =~= old(s)@ + instant_text(at));
}

/// How many bytes went each way.
pub open spec fn totals_text(bytes_to_remote: u64, bytes_to_guest: u64) -> Seq<char> {
    " (guest->remoto "@ + number(bytes_to_remote) + " byte, remoto->guest "@ + number(
        bytes_to_guest,
    ) + " byte)"@
}

fn push_totals(s: &mut String, bytes_to_remote: u64, bytes_to_guest: u64)
    ensures
        final(s)@ == old(s)@ + totals_text(bytes_to_remote, bytes_to_guest),
{
    push_text(s, " (guest->remoto ");
    push_number(s, bytes_to_remote);
    push_text(s, " byte, remoto->guest ");
    push_number(s, bytes_to_guest);
    push_text(s, " byte)");
    assert(s@ =~= old(s)@ + totals_text(bytes_to_remote, bytes_to_guest));
}

/// Addresses, each after a space.
pub open spec fn addrs_text(addrs: Seq<Ipv4Addr>) -> Seq<char>
    decreases addrs.len(),
{
    if addrs.len() == 0 {
        Seq::empty()
    } else {
        addrs_text(addrs.drop_last()) + (" "@ + addrs.last().text())
    }
}

fn push_addrs(s: &mut String, addrs: &Vec<Ipv4Addr>)
    ensures
        final(s)@ == old(s)@ + addrs_text(addrs@),
{
    let mut i: usize = 0;
    assert(addrs@.take(0) =~= Seq::empty());
    assert(s@ =~= old(s)@ + addrs_text(addrs@.take(0)));
    while i < addrs.len()
        invariant
            i <= addrs@.len(),
            s@ == old(s)@ + addrs_text(addrs@.take(i as int)),
        decreases addrs@.len() - i,
    {
        push_text(s, " ");
        addrs[i].push_to(s);
        assert(addrs@.take(i + 1).drop_last() =~= addrs@.take(i as int));
        i += 1;
        assert(s@ =~= old(s)@ + addrs_text(addrs@.take(i as int)));
    }
    assert(addrs@.take(i as int) =~= addrs@);
}

/// `what id text`, the start of most lines.
pub open spec fn subject_text(what: Seq<char>, id: ConnId, text: Seq<char>) -> Seq<char> {
    what + number(id) + text
}

fn push_subject(s: &mut String, what: &str, id: ConnId, text: &str)
    ensures
        final(s)@ == old(s)@ + subject_text(what@, id, text@),
{
    push_text(s, what);
    push_number(s, id);
    push_text(s, text);
    assert(s@ =~= old(s)@ + subject_text(what@, id, text@));
}

/// A DNS name with its type.
pub open spec fn dns_text(name: Seq<char>, qtype: u16) -> Seq<char> {
    name + " tipo "@ + number(qtype as u64)
}

fn push_dns(s: &mut String, name: &String, qtype: u16)
    ensures
        final(s)@ == old(s)@ + dns_text(name@, qtype),
{
    push_text(s, name.as_str());
    push_text(s, " tipo ");
    push_number(s, qtype as u64);
    assert(s@ =~= old(s)@ + dns_text(name@, qtype));
}

/// The code of an answer.
pub open spec fn rcode_text(rcode: u8) -> Seq<char> {
    " rcode "@ + number(rcode as u64)
}

fn push_rcode(s: &mut String, rcode: u8)
    ensures
        final(s)@ == old(s)@ + rcode_text(rcode),
{
    push_text(s, " rcode ");
    push_number(s, rcode as u64);
    assert(s@ =~= old(s)@ + rcode_text(rcode));
}

impl Fact {
    /// `s` with the fact in words after it.
    pub open spec fn written(self, s: Seq<char>) -> Seq<char> {
        match self {
            Fact::Dhcp { message, mac, ip, hostname } => {
                let a = s + "dhcp "@ + message.text() + " "@ + ip.text() + " "@ + mac.text();
                match hostname {
                    Some(h) => a + " ("@ + h + ")"@,
                    None => a,
                }
            },
            Fact::IcmpEcho { dst, answered } => s + "icmp echo "@ + dst.text() + (if answered {
                " risposto"@
            } else {
                " senza risposta"@
            }),
            Fact::TcpOpen { id, flow } => s + subject_text("tcp "@, id, " syn "@) + flow.text(),
            Fact::TcpConnect { id, flow } => s + subject_text("tcp "@, id, " dall'host "@)
                + flow.remote.text() + " -> "@ + flow.guest.text(),
            Fact::TcpEstablished { id } => s + subject_text("tcp "@, id, " stabilita"@),
            Fact::TcpData { id, dir, len } => s + subject_text("tcp "@, id, " "@) + dir.text()
                + " "@ + count(len) + " byte"@,
            Fact::TcpClosed { id, reason, bytes_to_remote, bytes_to_guest } => s + subject_text(
                "tcp "@,
                id,
                " chiusa "@,
            ) + reason.text() + totals_text(bytes_to_remote, bytes_to_guest),
            Fact::UdpOpen { id, flow } => s + subject_text("udp "@, id, " nuovo "@) + flow.text(),
            Fact::UdpData { id, dir, len } => s + subject_text("udp "@, id, " "@) + dir.text()
                + " "@ + count(len) + " byte"@,
            Fact::UdpClosed { id, reason, bytes_to_remote, bytes_to_guest } => s + subject_text(
                "udp "@,
                id,
                " chiuso "@,
            ) + reason.text() + totals_text(bytes_to_remote, bytes_to_guest),
            Fact::DnsQuery { id, txid, name, qtype } => s + subject_text("dns "@, id, " domanda "@)
                + dns_text(name, qtype) + " (id "@ + hex16(txid) + ")"@,
            Fact::DnsAnswer { id, txid, name, qtype, rcode, addrs } => s + subject_text(
                "dns "@,
                id,
                " risposta "@,
            ) + dns_text(name, qtype) + rcode_text(rcode) + " (id "@ + hex16(txid) + ")"@
                + addrs_text(addrs),
        }
    }
}

impl Event {
    /// The line of the event: virtual time in seconds, and the fact.
    pub open spec fn text(self) -> Seq<char> {
        self.kind.written(instant_text(self.at))
    }
}

impl EventKind {
    /// Appends the fact in words.
    pub fn push_to(&self, s: &mut String)
        ensures
            final(s)@ == self@.written(old(s)@),
    {
        match self {
            EventKind::Dhcp { message, mac, ip, hostname } => {
                push_text(s, "dhcp ");
                push_text(s, message.name());
                push_text(s, " ");
                ip.push_to(s);
                push_text(s, " ");
                mac.push_to(s);
                match hostname {
                    Some(h) => {
                        push_text(s, " (");
                        push_text(s, h.as_str());
                        push_text(s, ")");
                    },
                    None => {},
                }
            },
            EventKind::IcmpEcho { dst, answered } => {
                push_text(s, "icmp echo ");
                dst.push_to(s);
                push_text(s, if *answered { " risposto" } else { " senza risposta" });
            },
            EventKind::TcpOpen { id, flow } => {
                push_subject(s, "tcp ", *id, " syn ");
                flow.push_to(s);
            },
            EventKind::TcpConnect { id, flow } => {
                push_subject(s, "tcp ", *id, " dall'host ");
                flow.remote.push_to(s);
                push_text(s, " -> ");
                flow.guest.push_to(s);
            },
            EventKind::TcpEstablished { id } => {
                push_subject(s, "tcp ", *id, " stabilita");
            },
            EventKind::TcpData { id, dir, len } => {
                push_subject(s, "tcp ", *id, " ");
                push_text(s, dir.name());
                push_text(s, " ");
                push_count(s, *len);
                push_text(s, " byte");
            },
            EventKind::TcpClosed { id, reason, bytes_to_remote, bytes_to_guest } => {
                push_subject(s, "tcp ", *id, " chiusa ");
                push_text(s, reason.name());
                push_totals(s, *bytes_to_remote, *bytes_to_guest);
            },
            EventKind::UdpOpen { id, flow } => {
                push_subject(s, "udp ", *id, " nuovo ");
                flow.push_to(s);
            },
            EventKind::UdpData { id, dir, len } => {
                push_subject(s, "udp ", *id, " ");
                push_text(s, dir.name());
                push_text(s, " ");
                push_count(s, *len);
                push_text(s, " byte");
            },
            EventKind::UdpClosed { id, reason, bytes_to_remote, bytes_to_guest } => {
                push_subject(s, "udp ", *id, " chiuso ");
                push_text(s, reason.name());
                push_totals(s, *bytes_to_remote, *bytes_to_guest);
            },
            EventKind::DnsQuery { id, txid, name, qtype } => {
                push_subject(s, "dns ", *id, " domanda ");
                push_dns(s, name, *qtype);
                push_text(s, " (id ");
                push_hex16(s, *txid);
                push_text(s, ")");
            },
            EventKind::DnsAnswer { id, txid, name, qtype, rcode, addrs } => {
                push_subject(s, "dns ", *id, " risposta ");
                push_dns(s, name, *qtype);
                push_rcode(s, *rcode);
                push_text(s, " (id ");
                push_hex16(s, *txid);
                push_text(s, ")");
                push_addrs(s, addrs);
            },
        }
    }
}

impl NetEvent {
    /// One readable line: virtual time in seconds, and the fact.
    pub fn to_string(&self) -> (r: String)
        ensures
            r@ == self@.text(),
    {
        let mut s: String = String::new();
        push_instant(&mut s, self.at);
        assert(s@ =~= instant_text(self.at));
        self.kind.push_to(&mut s);
        s
    }
}

} // verus!
