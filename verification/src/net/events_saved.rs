//! The event log in the saved state of the machine.
use vstd::prelude::*;
use crate::net::addr::{Flow, Mac, SocketAddrV4, VirtualTime};
use crate::net::events::{facts, DhcpMessage, Direction, Event, EventKind, Fact, NetEvent};
use crate::net::tcp_saved::{code_of_reason, reason_code, reason_from, reason_of};
use crate::snapshot::{add_field, append, copy_list, copy_opt_text, copy_text, fits, law_row_comes_back, read_row, tokens, Fault, Field, Kind, Source, Token};

verus! {

/// A length as a number of 64 bits.
pub open spec fn wide(n: usize) -> u64 {
    n as u64
}

/// The length of a number of 64 bits.
pub open spec fn narrow(n: u64) -> usize {
    n as usize
}

fn widened(n: usize) -> (r: u64)
    ensures
        r == wide(n),
{
    n as u64
}

fn narrowed(n: u64) -> (r: usize)
    ensures
        r == narrow(n),
{
    n as usize
}

/// The number of a direction.
pub open spec fn dir_code(d: Direction) -> u8 {
    match d {
        Direction::ToRemote => 0,
        Direction::ToGuest => 1,
    }
}

/// The direction of a number.
pub open spec fn dir_of(v: u8) -> Result<Direction, Fault> {
    match v {
        0 => Ok(Direction::ToRemote),
        1 => Ok(Direction::ToGuest),
        _ => Err(Fault::Direction(v)),
    }
}

fn code_of_dir(d: Direction) -> (r: u8)
    ensures
        r == dir_code(d),
{
    match d {
        Direction::ToRemote => 0,
        Direction::ToGuest => 1,
    }
}

fn dir_from(v: u8) -> (r: Result<Direction, Fault>)
    ensures
        r == dir_of(v),
{
    match v {
        0 => Ok(Direction::ToRemote),
        1 => Ok(Direction::ToGuest),
        _ => Err(Fault::Direction(v)),
    }
}

/// The number of a DHCP message.
pub open spec fn dhcp_code(m: DhcpMessage) -> u8 {
    match m {
        DhcpMessage::Offer => 0,
        DhcpMessage::Ack => 1,
        DhcpMessage::Nak => 2,
        DhcpMessage::Release => 3,
        DhcpMessage::Decline => 4,
    }
}

/// The DHCP message of a number.
pub open spec fn dhcp_of(v: u8) -> Result<DhcpMessage, Fault> {
    match v {
        0 => Ok(DhcpMessage::Offer),
        1 => Ok(DhcpMessage::Ack),
        2 => Ok(DhcpMessage::Nak),
        3 => Ok(DhcpMessage::Release),
        4 => Ok(DhcpMessage::Decline),
        _ => Err(Fault::Dhcp(v)),
    }
}

fn code_of_dhcp(m: DhcpMessage) -> (r: u8)
    ensures
        r == dhcp_code(m),
{
    match m {
        DhcpMessage::Offer => 0,
        DhcpMessage::Ack => 1,
        DhcpMessage::Nak => 2,
        DhcpMessage::Release => 3,
        DhcpMessage::Decline => 4,
    }
}

fn dhcp_from(v: u8) -> (r: Result<DhcpMessage, Fault>)
    ensures
        r == dhcp_of(v),
{
    match v {
        0 => Ok(DhcpMessage::Offer),
        1 => Ok(DhcpMessage::Ack),
        2 => Ok(DhcpMessage::Nak),
        3 => Ok(DhcpMessage::Release),
        4 => Ok(DhcpMessage::Decline),
        _ => Err(Fault::Dhcp(v)),
    }
}

/// The number of a kind of event.
pub open spec fn fact_code(f: Fact) -> u8 {
    match f {
        Fact::Dhcp { .. } => 0,
        Fact::IcmpEcho { .. } => 1,
        Fact::TcpOpen { .. } => 2,
        Fact::TcpEstablished { .. } => 3,
        Fact::TcpData { .. } => 4,
        Fact::TcpClosed { .. } => 5,
        Fact::UdpOpen { .. } => 6,
        Fact::UdpData { .. } => 7,
        Fact::UdpClosed { .. } => 8,
        Fact::DnsQuery { .. } => 9,
        Fact::DnsAnswer { .. } => 10,
        Fact::TcpConnect { .. } => 11,
    }
}

/// The fields of an event, after its kind.
pub open spec fn fact_tokens(f: Fact) -> Seq<Token> {
    match f {
        Fact::Dhcp { message, mac, ip, hostname } => seq![
            Token::U8(dhcp_code(message)),
            Token::Mac(mac),
            Token::Ip(ip),
            Token::OptText(hostname),
        ],
        Fact::IcmpEcho { dst, answered } => seq![
            Token::Ip(dst),
            Token::Bool(answered),
        ],
        Fact::TcpOpen { id, flow } => seq![
            Token::U64(id),
            Token::Ip(flow.guest.ip),
            Token::U16(flow.guest.port),
            Token::Ip(flow.remote.ip),
            Token::U16(flow.remote.port),
        ],
        Fact::TcpEstablished { id } => seq![
            Token::U64(id),
        ],
        Fact::TcpData { id, dir, len } => seq![
            Token::U64(id),
            Token::U8(dir_code(dir)),
            Token::Len(wide(len)),
        ],
        Fact::TcpClosed { id, reason, bytes_to_remote, bytes_to_guest } => seq![
            Token::U64(id),
            Token::U8(reason_code(reason)),
            Token::U64(bytes_to_remote),
            Token::U64(bytes_to_guest),
        ],
        Fact::UdpOpen { id, flow } => seq![
            Token::U64(id),
            Token::Ip(flow.guest.ip),
            Token::U16(flow.guest.port),
            Token::Ip(flow.remote.ip),
            Token::U16(flow.remote.port),
        ],
        Fact::UdpData { id, dir, len } => seq![
            Token::U64(id),
            Token::U8(dir_code(dir)),
            Token::Len(wide(len)),
        ],
        Fact::UdpClosed { id, reason, bytes_to_remote, bytes_to_guest } => seq![
            Token::U64(id),
            Token::U8(reason_code(reason)),
            Token::U64(bytes_to_remote),
            Token::U64(bytes_to_guest),
        ],
        Fact::DnsQuery { id, txid, name, qtype } => seq![
            Token::U64(id),
            Token::U16(txid),
            Token::Text(name),
            Token::U16(qtype),
        ],
        Fact::DnsAnswer { id, txid, name, qtype, rcode, addrs } => seq![
            Token::U64(id),
            Token::U16(txid),
            Token::Text(name),
            Token::U16(qtype),
            Token::U8(rcode),
            Token::Ips(addrs),
        ],
        Fact::TcpConnect { id, flow } => seq![
            Token::U64(id),
            Token::Ip(flow.guest.ip),
            Token::U16(flow.guest.port),
            Token::Ip(flow.remote.ip),
            Token::U16(flow.remote.port),
        ],
    }
}

/// The kinds of the fields of an event, by the number of its kind.
pub open spec fn fact_kinds(code: u8) -> Option<Seq<Kind>> {
    match code {
        0 => Some(seq![Kind::U8, Kind::Mac, Kind::Ip, Kind::OptText]),
        1 => Some(seq![Kind::Ip, Kind::Bool]),
        2 => Some(seq![Kind::U64, Kind::Ip, Kind::U16, Kind::Ip, Kind::U16]),
        3 => Some(seq![Kind::U64]),
        4 => Some(seq![Kind::U64, Kind::U8, Kind::Len]),
        5 => Some(seq![Kind::U64, Kind::U8, Kind::U64, Kind::U64]),
        6 => Some(seq![Kind::U64, Kind::Ip, Kind::U16, Kind::Ip, Kind::U16]),
        7 => Some(seq![Kind::U64, Kind::U8, Kind::Len]),
        8 => Some(seq![Kind::U64, Kind::U8, Kind::U64, Kind::U64]),
        9 => Some(seq![Kind::U64, Kind::U16, Kind::Text, Kind::U16]),
        10 => Some(seq![Kind::U64, Kind::U16, Kind::Text, Kind::U16, Kind::U8, Kind::Ips]),
        11 => Some(seq![Kind::U64, Kind::Ip, Kind::U16, Kind::Ip, Kind::U16]),
        _ => None,
    }
}

/// A saved event.
pub open spec fn event_tokens(e: Event) -> Seq<Token> {
    seq![Token::U64(e.at.0), Token::U8(fact_code(e.kind))] + fact_tokens(e.kind)
}

pub open spec fn flow_of(row: Seq<Token>, at: int) -> Flow {
    Flow {
        guest: SocketAddrV4 { ip: row[at]->Ip_0, port: row[at + 1]->U16_0 },
        remote: SocketAddrV4 { ip: row[at + 2]->Ip_0, port: row[at + 3]->U16_0 },
    }
}

/// The event in a row, by the number of its kind.
pub open spec fn fact_of(code: u8, row: Seq<Token>) -> Result<Fact, Fault> {
    match code {
        0 => match dhcp_of(row[0]->U8_0) {
            Ok(message) => Ok(
                Fact::Dhcp { message, mac: row[1]->Mac_0, ip: row[2]->Ip_0, hostname: row[3]->OptText_0 },
            ),
            Err(e) => Err(e),
        },
        1 => Ok(Fact::IcmpEcho { dst: row[0]->Ip_0, answered: row[1]->Bool_0 }),
        2 => Ok(Fact::TcpOpen { id: row[0]->U64_0, flow: flow_of(row, 1) }),
        3 => Ok(Fact::TcpEstablished { id: row[0]->U64_0 }),
        4 => match dir_of(row[1]->U8_0) {
            Ok(dir) => Ok(Fact::TcpData { id: row[0]->U64_0, dir, len: narrow(row[2]->Len_0) }),
            Err(e) => Err(e),
        },
        5 => match reason_of(row[1]->U8_0) {
            Ok(reason) => Ok(
                Fact::TcpClosed {
                    id: row[0]->U64_0,
                    reason,
                    bytes_to_remote: row[2]->U64_0,
                    bytes_to_guest: row[3]->U64_0,
                },
            ),
            Err(e) => Err(e),
        },
        6 => Ok(Fact::UdpOpen { id: row[0]->U64_0, flow: flow_of(row, 1) }),
        7 => match dir_of(row[1]->U8_0) {
            Ok(dir) => Ok(Fact::UdpData { id: row[0]->U64_0, dir, len: narrow(row[2]->Len_0) }),
            Err(e) => Err(e),
        },
        8 => match reason_of(row[1]->U8_0) {
            Ok(reason) => Ok(
                Fact::UdpClosed {
                    id: row[0]->U64_0,
                    reason,
                    bytes_to_remote: row[2]->U64_0,
                    bytes_to_guest: row[3]->U64_0,
                },
            ),
            Err(e) => Err(e),
        },
        9 => Ok(
            Fact::DnsQuery {
                id: row[0]->U64_0,
                txid: row[1]->U16_0,
                name: row[2]->Text_0,
                qtype: row[3]->U16_0,
            },
        ),
        10 => Ok(
            Fact::DnsAnswer {
                id: row[0]->U64_0,
                txid: row[1]->U16_0,
                name: row[2]->Text_0,
                qtype: row[3]->U16_0,
                rcode: row[4]->U8_0,
                addrs: row[5]->Ips_0,
            },
        ),
        11 => Ok(Fact::TcpConnect { id: row[0]->U64_0, flow: flow_of(row, 1) }),
        _ => Err(Fault::Event(code)),
    }
}

/// The event at the front, and what is left after it.
pub open spec fn event_from(s: Seq<Token>) -> Result<(Event, Seq<Token>), Fault> {
    if !fits(s, seq![Kind::U64, Kind::U8]) {
        Err(Fault::Missing)
    } else {
        let code = s[1]->U8_0;
        match fact_kinds(code) {
            None => Err(Fault::Event(code)),
            Some(ks) => if !fits(s.skip(2), ks) {
                Err(Fault::Missing)
            } else {
                match fact_of(code, s.skip(2)) {
                    Ok(f) => Ok(
                        (
                            Event { at: VirtualTime(s[0]->U64_0), kind: f },
                            s.skip(2).skip(ks.len() as int),
                        ),
                    ),
                    Err(e) => Err(e),
                }
            },
        }
    }
}

/// The first `n` events, and what is left after them.
pub open spec fn events_from(s: Seq<Token>, n: nat) -> Result<(Seq<Event>, Seq<Token>), Fault>
    decreases n,
{
    if n == 0 {
        Ok((Seq::empty(), s))
    } else {
        match event_from(s) {
            Err(e) => Err(e),
            Ok((e, rest)) => match events_from(rest, (n - 1) as nat) {
                Err(f) => Err(f),
                Ok((es, end)) => Ok((seq![e] + es, end)),
            },
        }
    }
}

/// The events that were read already, before the others.
pub open spec fn preceded(
    done: Seq<Event>,
    r: Result<(Seq<Event>, Seq<Token>), Fault>,
) -> Result<(Seq<Event>, Seq<Token>), Fault> {
    match r {
        Ok((es, end)) => Ok((done + es, end)),
        Err(e) => Err(e),
    }
}

/// The saved log.
pub open spec fn log_tokens(es: Seq<Event>) -> Seq<Token>
    decreases es.len(),
{
    if es.len() == 0 {
        Seq::empty()
    } else {
        event_tokens(es[0]) + log_tokens(es.skip(1))
    }
}

fn push_flow(r: &mut Vec<Field>, flow: &Flow)
    ensures
        tokens(final(r)@) == tokens(old(r)@) + seq![
            Token::Ip(flow.guest.ip),
            Token::U16(flow.guest.port),
            Token::Ip(flow.remote.ip),
            Token::U16(flow.remote.port),
        ],
{
    add_field(r, Field::Ip(flow.guest.ip));
    add_field(r, Field::U16(flow.guest.port));
    add_field(r, Field::Ip(flow.remote.ip));
    add_field(r, Field::U16(flow.remote.port));
    assert(tokens(r@) =~= tokens(old(r)@) + seq![
        Token::Ip(flow.guest.ip),
        Token::U16(flow.guest.port),
        Token::Ip(flow.remote.ip),
        Token::U16(flow.remote.port),
    ]);
}

impl EventKind {
    fn code(&self) -> (r: u8)
        ensures
            r == fact_code(self@),
    {
        match self {
            EventKind::Dhcp { .. } => 0,
            EventKind::IcmpEcho { .. } => 1,
            EventKind::TcpOpen { .. } => 2,
            EventKind::TcpEstablished { .. } => 3,
            EventKind::TcpData { .. } => 4,
            EventKind::TcpClosed { .. } => 5,
            EventKind::UdpOpen { .. } => 6,
            EventKind::UdpData { .. } => 7,
            EventKind::UdpClosed { .. } => 8,
            EventKind::DnsQuery { .. } => 9,
            EventKind::DnsAnswer { .. } => 10,
            EventKind::TcpConnect { .. } => 11,
        }
    }

    fn fields(&self) -> (r: Vec<Field>)
        ensures
            tokens(r@) == fact_tokens(self@),
    {
        let mut r: Vec<Field> = Vec::new();
        match self {
            EventKind::Dhcp { message, mac, ip, hostname } => {
                add_field(&mut r, Field::U8(code_of_dhcp(*message)));
                add_field(&mut r, Field::Mac(*mac));
                add_field(&mut r, Field::Ip(*ip));
                add_field(&mut r, Field::OptText(copy_opt_text(hostname)));
            },
            EventKind::IcmpEcho { dst, answered } => {
                add_field(&mut r, Field::Ip(*dst));
                add_field(&mut r, Field::Bool(*answered));
            },
            EventKind::TcpOpen { id, flow } => {
                add_field(&mut r, Field::U64(*id));
                push_flow(&mut r, flow);
            },
            EventKind::TcpEstablished { id } => {
                add_field(&mut r, Field::U64(*id));
            },
            EventKind::TcpData { id, dir, len } => {
                add_field(&mut r, Field::U64(*id));
                add_field(&mut r, Field::U8(code_of_dir(*dir)));
                add_field(&mut r, Field::Len(widened(*len)));
            },
            EventKind::TcpClosed { id, reason, bytes_to_remote, bytes_to_guest } => {
                add_field(&mut r, Field::U64(*id));
                add_field(&mut r, Field::U8(code_of_reason(*reason)));
                add_field(&mut r, Field::U64(*bytes_to_remote));
                add_field(&mut r, Field::U64(*bytes_to_guest));
            },
            EventKind::UdpOpen { id, flow } => {
                add_field(&mut r, Field::U64(*id));
                push_flow(&mut r, flow);
            },
            EventKind::UdpData { id, dir, len } => {
                add_field(&mut r, Field::U64(*id));
                add_field(&mut r, Field::U8(code_of_dir(*dir)));
                add_field(&mut r, Field::Len(widened(*len)));
            },
            EventKind::UdpClosed { id, reason, bytes_to_remote, bytes_to_guest } => {
                add_field(&mut r, Field::U64(*id));
                add_field(&mut r, Field::U8(code_of_reason(*reason)));
                add_field(&mut r, Field::U64(*bytes_to_remote));
                add_field(&mut r, Field::U64(*bytes_to_guest));
            },
            EventKind::DnsQuery { id, txid, name, qtype } => {
                add_field(&mut r, Field::U64(*id));
                add_field(&mut r, Field::U16(*txid));
                add_field(&mut r, Field::Text(copy_text(name)));
                add_field(&mut r, Field::U16(*qtype));
            },
            EventKind::DnsAnswer { id, txid, name, qtype, rcode, addrs } => {
                add_field(&mut r, Field::U64(*id));
                add_field(&mut r, Field::U16(*txid));
                add_field(&mut r, Field::Text(copy_text(name)));
                add_field(&mut r, Field::U16(*qtype));
                add_field(&mut r, Field::U8(*rcode));
                add_field(&mut r, Field::Ips(copy_list(addrs)));
            },
            EventKind::TcpConnect { id, flow } => {
                add_field(&mut r, Field::U64(*id));
                push_flow(&mut r, flow);
            },
        }
        assert(tokens(r@) =~= fact_tokens(self@));
        r
    }
}

impl NetEvent {
    /// The fields of the event, in order.
    pub fn save(&self) -> (r: Vec<Field>)
        ensures
            tokens(r@) == event_tokens(self@),
    {
        let mut r: Vec<Field> = Vec::new();
        add_field(&mut r, Field::U64(self.at.0));
        add_field(&mut r, Field::U8(self.kind.code()));
        append(&mut r, self.kind.fields());
        assert(tokens(r@) =~= event_tokens(self@));
        r
    }
}

fn kinds_of_fact(code: u8) -> (r: Option<Vec<Kind>>)
    ensures
        match r {
            Some(v) => fact_kinds(code) == Some(v@),
            None => fact_kinds(code) is None,
        },
{
    let mut v: Vec<Kind> = Vec::new();
    match code {
        0 => {
            v.push(Kind::U8);
            v.push(Kind::Mac);
            v.push(Kind::Ip);
            v.push(Kind::OptText);
        },
        1 => {
            v.push(Kind::Ip);
            v.push(Kind::Bool);
        },
        2 => {
            v.push(Kind::U64);
            v.push(Kind::Ip);
            v.push(Kind::U16);
            v.push(Kind::Ip);
            v.push(Kind::U16);
        },
        3 => {
            v.push(Kind::U64);
        },
        4 => {
            v.push(Kind::U64);
            v.push(Kind::U8);
            v.push(Kind::Len);
        },
        5 => {
            v.push(Kind::U64);
            v.push(Kind::U8);
            v.push(Kind::U64);
            v.push(Kind::U64);
        },
        6 => {
            v.push(Kind::U64);
            v.push(Kind::Ip);
            v.push(Kind::U16);
            v.push(Kind::Ip);
            v.push(Kind::U16);
        },
        7 => {
            v.push(Kind::U64);
            v.push(Kind::U8);
            v.push(Kind::Len);
        },
        8 => {
            v.push(Kind::U64);
            v.push(Kind::U8);
            v.push(Kind::U64);
            v.push(Kind::U64);
        },
        9 => {
            v.push(Kind::U64);
            v.push(Kind::U16);
            v.push(Kind::Text);
            v.push(Kind::U16);
        },
        10 => {
            v.push(Kind::U64);
            v.push(Kind::U16);
            v.push(Kind::Text);
            v.push(Kind::U16);
            v.push(Kind::U8);
            v.push(Kind::Ips);
        },
        11 => {
            v.push(Kind::U64);
            v.push(Kind::Ip);
            v.push(Kind::U16);
            v.push(Kind::Ip);
            v.push(Kind::U16);
        },
        _ => {
            return None;
        },
    }
    assert(v@ =~= fact_kinds(code)->0);
    Some(v)
}

pub fn flow_from(row: &Vec<Field>, at: usize) -> (r: Flow)
    requires
        at + 4 <= row@.len(),
        tokens(row@)[at as int] is Ip,
        tokens(row@)[at + 1] is U16,
        tokens(row@)[at + 2] is Ip,
        tokens(row@)[at + 3] is U16,
    ensures
        r == flow_of(tokens(row@), at as int),
{
    let len: usize = row.len();
    Flow {
        guest: SocketAddrV4 { ip: row[at].ip(), port: row[at + 1].u16() },
        remote: SocketAddrV4 { ip: row[at + 2].ip(), port: row[at + 3].u16() },
    }
}

fn fact_from(code: u8, row: &Vec<Field>) -> (r: Result<EventKind, Fault>)
    requires
        fact_kinds(code) is Some,
        row@.len() == fact_kinds(code)->0.len(),
        fits(tokens(row@), fact_kinds(code)->0),
    ensures
        match r {
            Ok(k) => fact_of(code, tokens(row@)) == Ok::<Fact, Fault>(k@),
            Err(e) => fact_of(code, tokens(row@)) == Err::<Fact, Fault>(e),
        },
{
    let ghost t = tokens(row@);
    assert(forall|i: int| 0 <= i < row@.len() ==> (#[trigger] row@[i])@ == t[i]);
    match code {
        0 => match dhcp_from(row[0].u8()) {
            Ok(message) => Ok(
                EventKind::Dhcp {
                    message,
                    mac: row[1].mac(),
                    ip: row[2].ip(),
                    hostname: row[3].opt_text(),
                },
            ),
            Err(e) => Err(e),
        },
        1 => Ok(EventKind::IcmpEcho { dst: row[0].ip(), answered: row[1].bool() }),
        2 => Ok(EventKind::TcpOpen { id: row[0].u64(), flow: flow_from(row, 1) }),
        3 => Ok(EventKind::TcpEstablished { id: row[0].u64() }),
        4 => match dir_from(row[1].u8()) {
            Ok(dir) => Ok(EventKind::TcpData { id: row[0].u64(), dir, len: narrowed(row[2].len()) }),
            Err(e) => Err(e),
        },
        5 => match reason_from(row[1].u8()) {
            Ok(reason) => Ok(
                EventKind::TcpClosed {
                    id: row[0].u64(),
                    reason,
                    bytes_to_remote: row[2].u64(),
                    bytes_to_guest: row[3].u64(),
                },
            ),
            Err(e) => Err(e),
        },
        6 => Ok(EventKind::UdpOpen { id: row[0].u64(), flow: flow_from(row, 1) }),
        7 => match dir_from(row[1].u8()) {
            Ok(dir) => Ok(EventKind::UdpData { id: row[0].u64(), dir, len: narrowed(row[2].len()) }),
            Err(e) => Err(e),
        },
        8 => match reason_from(row[1].u8()) {
            Ok(reason) => Ok(
                EventKind::UdpClosed {
                    id: row[0].u64(),
                    reason,
                    bytes_to_remote: row[2].u64(),
                    bytes_to_guest: row[3].u64(),
                },
            ),
            Err(e) => Err(e),
        },
        9 => Ok(
            EventKind::DnsQuery {
                id: row[0].u64(),
                txid: row[1].u16(),
                name: row[2].text(),
                qtype: row[3].u16(),
            },
        ),
        10 => Ok(
            EventKind::DnsAnswer {
                id: row[0].u64(),
                txid: row[1].u16(),
                name: row[2].text(),
                qtype: row[3].u16(),
                rcode: row[4].u8(),
                addrs: row[5].ips(),
            },
        ),
        11 => Ok(EventKind::TcpConnect { id: row[0].u64(), flow: flow_from(row, 1) }),
        _ => Err(Fault::Event(code)),
    }
}

/// Reads an event.
pub fn read_event<S: Source>(src: &mut S) -> (r: Result<NetEvent, Fault>)
    ensures
        match r {
            Ok(e) => event_from(old(src).rest()) == Ok::<(Event, Seq<Token>), Fault>(
                (e@, final(src).rest()),
            ),
            Err(e) => event_from(old(src).rest()) == Err::<(Event, Seq<Token>), Fault>(e),
        },
{
    let ghost s = src.rest();
    let mut head: Vec<Kind> = Vec::new();
    head.push(Kind::U64);
    head.push(Kind::U8);
    assert(head@ =~= seq![Kind::U64, Kind::U8]);
    let front: Vec<Field> = match read_row(src, head.as_slice()) {
        Ok(v) => v,
        Err(e) => {
            return Err(e);
        },
    };
    assert(tokens(front@) == s.take(2));
    assert(front@[0]@ == s.take(2)[0] && front@[1]@ == s.take(2)[1]);
    assert(head@[0] == Kind::U64 && head@[1] == Kind::U8);
    assert(s[0].is_kind(head@[0]) && s[1].is_kind(head@[1]));
    let at: VirtualTime = VirtualTime(front[0].u64());
    let code: u8 = front[1].u8();
    let kinds: Vec<Kind> = match kinds_of_fact(code) {
        Some(v) => v,
        None => {
            return Err(Fault::Event(code));
        },
    };
    let ghost rest = src.rest();
    let row: Vec<Field> = match read_row(src, kinds.as_slice()) {
        Ok(v) => v,
        Err(e) => {
            return Err(e);
        },
    };
    proof {
        let t = tokens(row@);
        assert(t == rest.take(kinds@.len() as int));
        assert forall|i: int| 0 <= i < kinds@.len() implies (#[trigger] t[i]).is_kind(kinds@[i]) by {
            assert(t[i] == rest[i]);
        }
        lemma_fact_of_prefix(code, t, rest);
    }
    match fact_from(code, &row) {
        Ok(kind) => Ok(NetEvent { at, kind }),
        Err(e) => Err(e),
    }
}

proof fn lemma_fact_of_prefix(code: u8, row: Seq<Token>, s: Seq<Token>)
    requires
        fact_kinds(code) is Some,
        row.len() == fact_kinds(code)->0.len() <= s.len(),
        forall|i: int| 0 <= i < row.len() ==> row[i] == s[i],
    ensures
        fact_of(code, row) == fact_of(code, s),
{
}

proof fn lemma_fact_comes_back(f: Fact, t: Seq<Token>)
    ensures
        fact_kinds(fact_code(f)) is Some,
        fact_kinds(fact_code(f))->0.len() == fact_tokens(f).len(),
        fits(fact_tokens(f), fact_kinds(fact_code(f))->0),
        fact_of(fact_code(f), fact_tokens(f) + t) == Ok::<Fact, Fault>(f),
{
    let s = fact_tokens(f) + t;
    assert(forall|i: int| 0 <= i < fact_tokens(f).len() ==> #[trigger] s[i] == fact_tokens(f)[i]);
}

/// An event that was saved is restored as it was.
pub proof fn law_event_comes_back(e: Event, t: Seq<Token>)
    ensures
        event_from(event_tokens(e) + t) == Ok::<(Event, Seq<Token>), Fault>((e, t)),
{
    let s = event_tokens(e) + t;
    let rest = fact_tokens(e.kind) + t;
    assert(s.skip(2) =~= rest);
    assert(s[0] == Token::U64(e.at.0) && s[1] == Token::U8(fact_code(e.kind)));
    lemma_fact_comes_back(e.kind, t);
    let ks = fact_kinds(fact_code(e.kind))->0;
    law_row_comes_back(fact_tokens(e.kind), ks, t);
}

/// A log that was saved is restored as it was.
pub proof fn law_log_comes_back(es: Seq<Event>, t: Seq<Token>)
    ensures
        events_from(log_tokens(es) + t, es.len()) == Ok::<(Seq<Event>, Seq<Token>), Fault>((es, t)),
    decreases es.len(),
{
    if es.len() == 0 {
        assert(log_tokens(es) + t =~= t);
        assert(es =~= Seq::empty());
    } else {
        let rest = log_tokens(es.skip(1)) + t;
        assert(log_tokens(es) + t =~= event_tokens(es[0]) + rest);
        law_event_comes_back(es[0], rest);
        law_log_comes_back(es.skip(1), t);
        assert(seq![es[0]] + es.skip(1) =~= es);
    }
}

proof fn lemma_log_push(es: Seq<Event>, e: Event)
    ensures
        log_tokens(es.push(e)) == log_tokens(es) + event_tokens(e),
    decreases es.len(),
{
    if es.len() == 0 {
        assert(log_tokens(es.push(e).skip(1)) =~= Seq::empty());
        assert(log_tokens(es.push(e)) =~= log_tokens(es) + event_tokens(e));
    } else {
        lemma_log_push(es.skip(1), e);
        assert(es.push(e).skip(1) =~= es.skip(1).push(e));
        assert(log_tokens(es.push(e)) =~= log_tokens(es) + event_tokens(e));
    }
}

/// The fields of the log: its length and its events.
pub fn save_log(log: &Vec<NetEvent>) -> (r: Vec<Field>)
    ensures
        tokens(r@) == seq![Token::Count(log@.len() as u64)] + log_tokens(facts(log@)),
{
    let mut r: Vec<Field> = Vec::new();
    add_field(&mut r, Field::Count(log.len() as u64));
    let ghost es = facts(log@);
    let mut i: usize = 0;
    assert(tokens(r@) =~= seq![Token::Count(log@.len() as u64)] + log_tokens(es.take(0)));
    while i < log.len()
        invariant
            i <= log@.len(),
            es == facts(log@),
            tokens(r@) == seq![Token::Count(log@.len() as u64)] + log_tokens(es.take(i as int)),
        decreases log@.len() - i,
    {
        append(&mut r, log[i].save());
        proof {
            lemma_log_push(es.take(i as int), es[i as int]);
            assert(es.take(i + 1) =~= es.take(i as int).push(es[i as int]));
        }
        i += 1;
        assert(tokens(r@) =~= seq![Token::Count(log@.len() as u64)] + log_tokens(es.take(i as int)));
    }
    assert(es.take(i as int) =~= es);
    r
}

/// The log at the front, and what is left after it.
pub open spec fn log_from(s: Seq<Token>) -> Result<(Seq<Event>, Seq<Token>), Fault> {
    if s.len() == 0 || !(s[0] is Count) {
        Err(Fault::Missing)
    } else {
        events_from(s.skip(1), s[0]->Count_0 as nat)
    }
}

/// Reads the log.
pub fn read_log<S: Source>(src: &mut S) -> (r: Result<Vec<NetEvent>, Fault>)
    ensures
        match r {
            Ok(v) => log_from(old(src).rest()) == Ok::<(Seq<Event>, Seq<Token>), Fault>(
                (facts(v@), final(src).rest()),
            ),
            Err(e) => log_from(old(src).rest()) == Err::<(Seq<Event>, Seq<Token>), Fault>(e),
        },
{
    let n: u64 = match src.next(Kind::Count(9)) {
        Ok(f) => f.count(),
        Err(e) => {
            return Err(e);
        },
    };
    let ghost all = src.rest();
    let mut v: Vec<NetEvent> = Vec::new();
    let mut i: u64 = 0;
    proof {
        let r = events_from(all, n as nat);
        if r is Ok {
            assert(facts(v@) + (r->Ok_0).0 =~= (r->Ok_0).0);
        }
    }
    while i < n
        invariant
            i <= n,
            old(src).rest().len() > 0,
            old(src).rest()[0] == Token::Count(n),
            all == old(src).rest().skip(1),
            preceded(facts(v@), events_from(src.rest(), (n - i) as nat)) == events_from(all, n as nat),
        decreases n - i,
    {
        let ghost cur = src.rest();
        let ghost done = facts(v@);
        match read_event(src) {
            Ok(e) => {
                v.push(e);
                i += 1;
                proof {
                    assert(facts(v@) =~= done.push(e@));
                    let r = events_from(src.rest(), (n - i) as nat);
                    if r is Ok {
                        assert(done + (seq![e@] + (r->Ok_0).0) =~= facts(v@) + (r->Ok_0).0);
                    }
                }
            },
            Err(e) => {
                return Err(e);
            },
        }
    }
    assert(facts(v@) + Seq::<Event>::empty() =~= facts(v@));
    Ok(v)
}

} // verus!
