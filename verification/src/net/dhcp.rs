//! DHCP server for a single guest.
//!
//! Every client gets the same address: the virtual machine has one network
//! card.
use vstd::prelude::*;
use crate::bytes::{be16, be16_at, be16_bytes, be32, be32_at, be32_bytes, push_be16, push_be32, push_bytes, push_zeros, to_vec, zeros};
use crate::net::addr::{mac_at, push_ip, push_mac, Ipv4Addr, Mac};
use crate::net::events::opt_text;
use crate::text::{lossy_text, utf8_lossy};

verus! {

pub const SERVER_PORT: u16 = 67;
pub const CLIENT_PORT: u16 = 68;

pub const DISCOVER: u8 = 1;
pub const OFFER: u8 = 2;
pub const REQUEST: u8 = 3;
pub const DECLINE: u8 = 4;
pub const ACK: u8 = 5;
pub const NAK: u8 = 6;
pub const RELEASE: u8 = 7;
pub const INFORM: u8 = 8;

/// Length of the fixed part, before the magic cookie.
pub const FIXED_LEN: usize = 236;
/// Many clients discard BOOTP answers shorter than this.
pub const MIN_REPLY_LEN: usize = 300;

pub const OPT_SUBNET_MASK: u8 = 1;
pub const OPT_ROUTER: u8 = 3;
pub const OPT_DNS: u8 = 6;
pub const OPT_HOSTNAME: u8 = 12;
pub const OPT_REQUESTED_IP: u8 = 50;
pub const OPT_LEASE_TIME: u8 = 51;
pub const OPT_MESSAGE_TYPE: u8 = 53;
pub const OPT_SERVER_ID: u8 = 54;
pub const OPT_RENEWAL_TIME: u8 = 58;
pub const OPT_REBINDING_TIME: u8 = 59;
pub const OPT_END: u8 = 255;

/// A parsed DHCP message.
#[derive(Clone, Debug, PartialEq, Eq)]
pub struct Packet {
    /// 1 = BOOTREQUEST, 2 = BOOTREPLY.
    pub op: u8,
    pub xid: u32,
    pub flags: u16,
    pub ciaddr: Ipv4Addr,
    pub yiaddr: Ipv4Addr,
    pub chaddr: Mac,
    pub message_type: Option<u8>,
    pub requested_ip: Option<Ipv4Addr>,
    pub server_id: Option<Ipv4Addr>,
    pub hostname: Option<String>,
    /// All the options, in order: (code, value).
    pub options: Vec<(u8, Vec<u8>)>,
}

/// What a [`Packet`] says.
#[verifier::ext_equal]
pub struct Message {
    pub op: u8,
    pub xid: u32,
    pub flags: u16,
    pub ciaddr: Ipv4Addr,
    pub yiaddr: Ipv4Addr,
    pub chaddr: Mac,
    pub message_type: Option<u8>,
    pub requested_ip: Option<Ipv4Addr>,
    pub server_id: Option<Ipv4Addr>,
    pub hostname: Option<Seq<char>>,
    pub options: Seq<(u8, Seq<u8>)>,
}

/// The options as code and bytes.
pub open spec fn opts(v: Seq<(u8, Vec<u8>)>) -> Seq<(u8, Seq<u8>)> {
    v.map_values(|o: (u8, Vec<u8>)| (o.0, o.1@))
}

impl View for Packet {
    type V = Message;

    open spec fn view(&self) -> Message {
        Message {
            op: self.op,
            xid: self.xid,
            flags: self.flags,
            ciaddr: self.ciaddr,
            yiaddr: self.yiaddr,
            chaddr: self.chaddr,
            message_type: self.message_type,
            requested_ip: self.requested_ip,
            server_id: self.server_id,
            hostname: opt_text(self.hostname),
            options: opts(self.options@),
        }
    }
}

/// The value of the first option with this code.
pub open spec fn first_option(o: Seq<(u8, Seq<u8>)>, code: u8) -> Option<Seq<u8>>
    decreases o.len(),
{
    if o.len() == 0 {
        None
    } else if o[0].0 == code {
        Some(o[0].1)
    } else {
        first_option(o.skip(1), code)
    }
}

/// The options encoded in `p`: code, length, value; 0 is padding and 255 the
/// end. `None` if one is cut short.
pub open spec fn options_in(p: Seq<u8>) -> Option<Seq<(u8, Seq<u8>)>>
    decreases p.len(),
{
    if p.len() == 0 || p[0] == OPT_END {
        Some(Seq::empty())
    } else if p[0] == 0 {
        options_in(p.skip(1))
    } else if p.len() < 2 || 2 + p[1] > p.len() {
        None
    } else {
        match options_in(p.skip(2 + p[1])) {
            Some(rest) => Some(seq![(p[0], p.subrange(2, 2 + p[1]))] + rest),
            None => None,
        }
    }
}

pub open spec fn magic() -> Seq<u8> {
    seq![99u8, 130, 83, 99]
}

/// An option of four bytes as an address.
pub open spec fn opt_addr(v: Option<Seq<u8>>) -> Option<Ipv4Addr> {
    match v {
        Some(b) => if b.len() == 4 {
            Some(Ipv4Addr { bits: be32_at(b, 0) })
        } else {
            None
        },
        None => None,
    }
}

/// Ethernet, six address bytes and the magic cookie.
pub open spec fn is_bootp(p: Seq<u8>) -> bool {
    &&& p.len() >= FIXED_LEN + 4
    &&& p[1] == 1
    &&& p[2] == 6
    &&& p.subrange(FIXED_LEN as int, FIXED_LEN + 4) == magic()
}

/// The message in `p`, if there is one.
pub open spec fn message_in(p: Seq<u8>) -> Option<Message> {
    if !is_bootp(p) {
        None
    } else {
        match options_in(p.skip(FIXED_LEN + 4)) {
            None => None,
            Some(o) => Some(
                Message {
                    op: p[0],
                    xid: be32_at(p, 4),
                    flags: be16_at(p, 10),
                    ciaddr: Ipv4Addr { bits: be32_at(p, 12) },
                    yiaddr: Ipv4Addr { bits: be32_at(p, 16) },
                    chaddr: Mac::at(p, 28),
                    message_type: match first_option(o, OPT_MESSAGE_TYPE) {
                        Some(v) => if v.len() > 0 {
                            Some(v[0])
                        } else {
                            None
                        },
                        None => None,
                    },
                    requested_ip: opt_addr(first_option(o, OPT_REQUESTED_IP)),
                    server_id: opt_addr(first_option(o, OPT_SERVER_ID)),
                    hostname: match first_option(o, OPT_HOSTNAME) {
                        Some(v) => Some(utf8_lossy(v)),
                        None => None,
                    },
                    options: o,
                },
            ),
        }
    }
}

/// The first option with this code.
fn find<'a>(options: &'a Vec<(u8, Vec<u8>)>, code: u8) -> (r: Option<&'a [u8]>)
    ensures
        match r {
            Some(v) => first_option(opts(options@), code) == Some(v@),
            None => first_option(opts(options@), code) is None,
        },
{
    let mut i: usize = 0;
    assert(opts(options@).skip(0) =~= opts(options@));
    while i < options.len()
        invariant
            i <= options@.len(),
            first_option(opts(options@), code) == first_option(
                opts(options@).skip(i as int),
                code,
            ),
        decreases options@.len() - i,
    {
        assert(opts(options@).skip(i as int)[0] == opts(options@)[i as int]);
        assert(opts(options@).skip(i as int).skip(1) =~= opts(options@).skip(i + 1));
        if options[i].0 == code {
            return Some(options[i].1.as_slice());
        }
        i += 1;
    }
    None
}

/// An option of four bytes as an address.
fn as_addr(v: Option<&[u8]>) -> (r: Option<Ipv4Addr>)
    ensures
        r == (match v {
            Some(b) => opt_addr(Some(b@)),
            None => None,
        }),
{
    match v {
        Some(b) => if b.len() == 4 {
            Some(Ipv4Addr { bits: be32(b, 0) })
        } else {
            None
        },
        None => None,
    }
}

impl Packet {
    /// The value of the first option with this code.
    pub fn option(&self, code: u8) -> (r: Option<&[u8]>)
        ensures
            match r {
                Some(v) => first_option(self@.options, code) == Some(v@),
                None => first_option(self@.options, code) is None,
            },
    {
        find(&self.options, code)
    }

    /// The client asks for answers by broadcast.
    pub fn broadcast_flag(&self) -> (r: bool)
        ensures
            r == self@.wants_broadcast(),
    {
        self.flags & 0x8000 != 0
    }
}

impl Message {
    pub open spec fn wants_broadcast(self) -> bool {
        self.flags & 0x8000 != 0
    }
}

/// The options from `from` on.
fn parse_options(p: &[u8], from: usize) -> (r: Option<Vec<(u8, Vec<u8>)>>)
    requires
        from <= p@.len(),
    ensures
        match r {
            Some(v) => options_in(p@.skip(from as int)) == Some(opts(v@)),
            None => options_in(p@.skip(from as int)) is None,
        },
{
    let mut v: Vec<(u8, Vec<u8>)> = Vec::new();
    let mut at: usize = from;
    let n: usize = p.len();
    let ghost goal = options_in(p@.skip(from as int));
    assert(goal == match options_in(p@.skip(at as int)) {
        Some(rest) => Some(opts(v@) + rest),
        None => None,
    }) by {
        assert(opts(v@) =~= Seq::empty());
        if let Some(rest) = goal {
            assert(opts(v@) + rest =~= rest);
        }
    }
    while at < n && p[at] != OPT_END
        invariant
            at <= n == p@.len(),
            goal == options_in(p@.skip(from as int)),
            goal == (match options_in(p@.skip(at as int)) {
                Some(rest) => Some(opts(v@) + rest),
                None => None,
            }),
        decreases n - at,
    {
        let ghost q = p@.skip(at as int);
        if p[at] == 0 {
            at += 1;
            assert(q.skip(1) =~= p@.skip(at as int));
        } else {
            if n - at < 2 {
                return None;
            }
            let len: usize = p[at + 1] as usize;
            if n - at - 2 < len {
                return None;
            }
            let value: Vec<u8> = to_vec(vstd::slice::slice_subrange(p, at + 2, at + 2 + len));
            assert(value@ =~= q.subrange(2, 2 + len));
            let ghost v0 = opts(v@);
            let code: u8 = p[at];
            v.push((code, value));
            assert(opts(v@) =~= v0.push((code, value@)));
            at = at + 2 + len;
            assert(q.skip(2 + len) =~= p@.skip(at as int));
            proof {
                if let Some(rest) = options_in(p@.skip(at as int)) {
                    assert(v0 + (seq![(code, value@)] + rest) =~= opts(v@) + rest);
                }
            }
        }
    }
    assert(options_in(p@.skip(at as int)) == Some(Seq::<(u8, Seq<u8>)>::empty()));
    assert(opts(v@) + Seq::<(u8, Seq<u8>)>::empty() =~= opts(v@));
    Some(v)
}

/// Parses a DHCP message.
pub fn parse(p: &[u8]) -> (r: Option<Packet>)
    ensures
        match r {
            Some(m) => message_in(p@) == Some(m@),
            None => message_in(p@) is None,
        },
{
    if p.len() < FIXED_LEN + 4 {
        return None;
    }
    proof {
        let c = p@.subrange(FIXED_LEN as int, FIXED_LEN + 4);
        if p@[236] == 99 && p@[237] == 130 && p@[238] == 83 && p@[239] == 99 {
            assert(c =~= magic());
        } else {
            assert(c[0] == p@[236] && c[1] == p@[237] && c[2] == p@[238] && c[3] == p@[239]);
            assert(magic()[0] == 99 && magic()[1] == 130 && magic()[2] == 83 && magic()[3] == 99);
        }
    }
    if p[1] != 1 || p[2] != 6 || p[236] != 99 || p[237] != 130 || p[238] != 83 || p[239] != 99 {
        return None;
    }
    let options: Vec<(u8, Vec<u8>)> = match parse_options(p, FIXED_LEN + 4) {
        Some(v) => v,
        None => {
            return None;
        },
    };
    let message_type: Option<u8> = match find(&options, OPT_MESSAGE_TYPE) {
        Some(v) => if v.len() > 0 {
            Some(v[0])
        } else {
            None
        },
        None => None,
    };
    let requested_ip = as_addr(find(&options, OPT_REQUESTED_IP));
    let server_id = as_addr(find(&options, OPT_SERVER_ID));
    let hostname: Option<String> = match find(&options, OPT_HOSTNAME) {
        Some(v) => Some(lossy_text(v)),
        None => None,
    };
    Some(
        Packet {
            op: p[0],
            xid: be32(p, 4),
            flags: be16(p, 10),
            ciaddr: Ipv4Addr { bits: be32(p, 12) },
            yiaddr: Ipv4Addr { bits: be32(p, 16) },
            chaddr: mac_at(p, 28),
            message_type,
            requested_ip,
            server_id,
            hostname,
            options,
        },
    )
}

/// The options encoded one after the other (lengths modulo 256).
pub open spec fn encoded(o: Seq<(u8, Seq<u8>)>) -> Seq<u8>
    decreases o.len(),
{
    if o.len() == 0 {
        Seq::empty()
    } else {
        encoded(o.drop_last()) + (seq![o.last().0, (o.last().1.len() % 256) as u8] + o.last().1)
    }
}

/// The fixed part of a BOOTP message, with the cookie.
pub open spec fn header(
    op: u8,
    xid: u32,
    flags: u16,
    ciaddr: Ipv4Addr,
    yiaddr: Ipv4Addr,
    chaddr: Mac,
) -> Seq<u8> {
    seq![op, 1u8, 6, 0] + be32_bytes(xid) + zeros(2) + be16_bytes(flags) + ciaddr.bytes()
        + yiaddr.bytes() + zeros(8) + chaddr.bytes() + zeros(202) + magic()
}

/// `p` with zeros up to the smallest length of an answer.
pub open spec fn filled(p: Seq<u8>) -> Seq<u8> {
    if p.len() < MIN_REPLY_LEN { p + zeros((MIN_REPLY_LEN - p.len()) as nat) } else { p }
}

/// The BOOTP message with these options.
pub open spec fn bootp(
    op: u8,
    xid: u32,
    flags: u16,
    ciaddr: Ipv4Addr,
    yiaddr: Ipv4Addr,
    chaddr: Mac,
    options: Seq<(u8, Seq<u8>)>,
) -> Seq<u8> {
    filled(header(op, xid, flags, ciaddr, yiaddr, chaddr) + encoded(options) + seq![OPT_END])
}

/// Builds a BOOTP message with the given options, in this order.
pub fn build(
    op: u8,
    xid: u32,
    flags: u16,
    ciaddr: Ipv4Addr,
    yiaddr: Ipv4Addr,
    chaddr: Mac,
    options: &[(u8, Vec<u8>)],
) -> (r: Vec<u8>)
    ensures
        r@ == bootp(op, xid, flags, ciaddr, yiaddr, chaddr, opts(options@)),
{
    let mut p: Vec<u8> = Vec::new();
    p.push(op);
    p.push(1);
    p.push(6);
    p.push(0);
    assert(p@ =~= seq![op, 1u8, 6, 0]);
    push_be32(&mut p, xid);
    push_zeros(&mut p, 2);
    push_be16(&mut p, flags);
    push_ip(&mut p, ciaddr);
    push_ip(&mut p, yiaddr);
    push_zeros(&mut p, 8);
    push_mac(&mut p, chaddr);
    push_zeros(&mut p, 202);
    let ghost before_magic = p@;
    p.push(99);
    p.push(130);
    p.push(83);
    p.push(99);
    assert(p@ =~= before_magic + magic());
    let ghost head = p@;
    assert(head == header(op, xid, flags, ciaddr, yiaddr, chaddr));
    let mut i: usize = 0;
    assert(opts(options@).take(0) =~= Seq::empty());
    assert(p@ =~= head + encoded(opts(options@).take(0)));
    while i < options.len()
        invariant
            i <= options@.len(),
            p@ == head + encoded(opts(options@).take(i as int)),
        decreases options@.len() - i,
    {
        let ghost p0 = p@;
        let ghost o = opts(options@);
        let value: &Vec<u8> = &options[i].1;
        p.push(options[i].0);
        p.push((value.len() % 256) as u8);
        push_bytes(&mut p, value.as_slice());
        assert(o.take(i + 1).drop_last() =~= o.take(i as int));
        assert(o.take(i + 1).last() == o[i as int]);
        assert(p@ =~= p0 + (seq![o[i as int].0, (o[i as int].1.len() % 256) as u8]
            + o[i as int].1));
        i += 1;
        assert(p@ =~= head + encoded(o.take(i as int)));
    }
    assert(opts(options@).take(i as int) =~= opts(options@));
    p.push(OPT_END);
    assert(p@ =~= head + encoded(opts(options@)) + seq![OPT_END]);
    if p.len() < MIN_REPLY_LEN {
        let missing: usize = MIN_REPLY_LEN - p.len();
        push_zeros(&mut p, missing);
    }
    p
}

/// Parameters of the network that the server announces.
#[derive(Clone, Copy, Debug)]
pub struct Lease {
    pub server: Ipv4Addr,
    pub client: Ipv4Addr,
    pub netmask: Ipv4Addr,
    pub router: Ipv4Addr,
    pub dns: Ipv4Addr,
    pub lease_secs: u32,
}

/// Answer of the server: the message to send and its kind.
#[derive(Clone, Debug)]
pub struct Reply {
    pub message_type: u8,
    pub packet: Vec<u8>,
    /// Destination.
    pub dst_ip: Ipv4Addr,
    pub dst_mac: Mac,
    pub yiaddr: Ipv4Addr,
}

/// What a [`Reply`] says.
#[verifier::ext_equal]
pub struct Answer {
    pub message_type: u8,
    pub packet: Seq<u8>,
    pub dst_ip: Ipv4Addr,
    pub dst_mac: Mac,
    pub yiaddr: Ipv4Addr,
}

impl View for Reply {
    type V = Answer;

    open spec fn view(&self) -> Answer {
        Answer {
            message_type: self.message_type,
            packet: self.packet@,
            dst_ip: self.dst_ip,
            dst_mac: self.dst_mac,
            yiaddr: self.yiaddr,
        }
    }
}

impl Message {
    /// The address that the client wants to keep.
    pub open spec fn wanted(self) -> Ipv4Addr {
        match self.requested_ip {
            Some(ip) => ip,
            None => self.ciaddr,
        }
    }

    /// Kind of the answer and address that it assigns. A REQUEST with the
    /// identifier of another server is the choice of that server: silence.
    pub open spec fn decision(self, lease: Lease) -> Option<(u8, Ipv4Addr)> {
        if self.op != 1 {
            None
        } else {
            match self.message_type {
                None => None,
                Some(mt) => if mt == DISCOVER {
                    Some((OFFER, lease.client))
                } else if mt == REQUEST {
                    if self.server_id matches Some(s) && s != lease.server {
                        None
                    } else if self.wanted() == lease.client {
                        Some((ACK, lease.client))
                    } else {
                        Some((NAK, Ipv4Addr { bits: 0 }))
                    }
                } else if mt == INFORM {
                    Some((ACK, Ipv4Addr { bits: 0 }))
                } else {
                    None
                },
            }
        }
    }

    /// Where the answer goes: to `ciaddr` if the client has it already (and this is no
    /// NAK), else by IP broadcast; on Ethernet by broadcast only if the client
    /// asked for it.
    pub open spec fn destination(self, kind: u8) -> (Ipv4Addr, Mac) {
        if self.ciaddr.bits != 0 && kind != NAK {
            (self.ciaddr, self.chaddr)
        } else if self.wants_broadcast() || kind == NAK {
            (Ipv4Addr { bits: 0xFFFF_FFFF }, Mac::all(0xFF))
        } else {
            (Ipv4Addr { bits: 0xFFFF_FFFF }, self.chaddr)
        }
    }

    /// The server's answer.
    pub open spec fn answer(self, lease: Lease) -> Option<Answer> {
        match self.decision(lease) {
            None => None,
            Some((kind, yiaddr)) => Some(
                Answer {
                    message_type: kind,
                    packet: bootp(
                        2,
                        self.xid,
                        self.flags,
                        self.ciaddr,
                        yiaddr,
                        self.chaddr,
                        lease.offered(kind, self.message_type == Some(INFORM)),
                    ),
                    dst_ip: self.destination(kind).0,
                    dst_mac: self.destination(kind).1,
                    yiaddr,
                },
            ),
        }
    }
}

impl Lease {
    pub open spec fn times(self) -> Seq<(u8, Seq<u8>)> {
        seq![
            (OPT_LEASE_TIME, be32_bytes(self.lease_secs)),
            (OPT_RENEWAL_TIME, be32_bytes((self.lease_secs / 2) as u32)),
            (OPT_REBINDING_TIME, be32_bytes((self.lease_secs / 8 * 7) as u32)),
        ]
    }

    pub open spec fn network(self) -> Seq<(u8, Seq<u8>)> {
        seq![
            (OPT_SUBNET_MASK, self.netmask.bytes()),
            (OPT_ROUTER, self.router.bytes()),
            (OPT_DNS, self.dns.bytes()),
        ]
    }

    /// The options of an answer: a NAK has none of the network's parameters, the
    /// answer to INFORM no times.
    pub open spec fn offered(self, kind: u8, inform: bool) -> Seq<(u8, Seq<u8>)> {
        seq![(OPT_MESSAGE_TYPE, seq![kind]), (OPT_SERVER_ID, self.server.bytes())] + (if kind
            == NAK {
            Seq::empty()
        } else if inform {
            self.network()
        } else {
            self.times() + self.network()
        })
    }
}

/// Appends an option of four bytes.
fn push_option4(v: &mut Vec<(u8, Vec<u8>)>, code: u8, value: u32)
    ensures
        opts(final(v)@) == opts(old(v)@).push((code, be32_bytes(value))),
{
    let mut b: Vec<u8> = Vec::new();
    push_be32(&mut b, value);
    assert(b@ =~= be32_bytes(value));
    v.push((code, b));
    assert(opts(v@) =~= opts(old(v)@).push((code, be32_bytes(value))));
}

fn offered_options(lease: &Lease, kind: u8, inform: bool) -> (v: Vec<(u8, Vec<u8>)>)
    ensures
        opts(v@) == lease.offered(kind, inform),
{
    let mut v: Vec<(u8, Vec<u8>)> = Vec::new();
    let mut t: Vec<u8> = Vec::new();
    t.push(kind);
    assert(t@ =~= seq![kind]);
    v.push((OPT_MESSAGE_TYPE, t));
    assert(opts(v@) =~= seq![(OPT_MESSAGE_TYPE, seq![kind])]);
    push_option4(&mut v, OPT_SERVER_ID, lease.server.bits);
    if kind != NAK {
        if !inform {
            push_option4(&mut v, OPT_LEASE_TIME, lease.lease_secs);
            push_option4(&mut v, OPT_RENEWAL_TIME, lease.lease_secs / 2);
            push_option4(&mut v, OPT_REBINDING_TIME, lease.lease_secs / 8 * 7);
        }
        push_option4(&mut v, OPT_SUBNET_MASK, lease.netmask.bits);
        push_option4(&mut v, OPT_ROUTER, lease.router.bits);
        push_option4(&mut v, OPT_DNS, lease.dns.bits);
    }
    assert(opts(v@) =~= lease.offered(kind, inform));
    v
}

/// Decides the answer to a client's message. `None` if there is to be none (a
/// message for another server, Release, Decline).
pub fn respond(req: &Packet, lease: &Lease) -> (r: Option<Reply>)
    ensures
        match r {
            Some(a) => req@.answer(*lease) == Some(a@),
            None => req@.answer(*lease) is None,
        },
{
    if req.op != 1 {
        return None;
    }
    let mt: u8 = match req.message_type {
        Some(t) => t,
        None => {
            return None;
        },
    };
    let (kind, yiaddr): (u8, Ipv4Addr) = if mt == DISCOVER {
        (OFFER, lease.client)
    } else if mt == REQUEST {
        if let Some(s) = req.server_id {
            if s != lease.server {
                return None;
            }
        }
        let wanted: Ipv4Addr = match req.requested_ip {
            Some(ip) => ip,
            None => req.ciaddr,
        };
        if wanted == lease.client {
            (ACK, lease.client)
        } else {
            (NAK, Ipv4Addr::unspecified())
        }
    } else if mt == INFORM {
        (ACK, Ipv4Addr::unspecified())
    } else {
        return None;
    };
    let options: Vec<(u8, Vec<u8>)> = offered_options(lease, kind, mt == INFORM);
    let packet: Vec<u8> = build(
        2,
        req.xid,
        req.flags,
        req.ciaddr,
        yiaddr,
        req.chaddr,
        options.as_slice(),
    );
    let (dst_ip, dst_mac): (Ipv4Addr, Mac) = if !req.ciaddr.is_unspecified() && kind != NAK {
        (req.ciaddr, req.chaddr)
    } else if req.broadcast_flag() || kind == NAK {
        (Ipv4Addr::broadcast(), Mac::broadcast())
    } else {
        (Ipv4Addr::broadcast(), req.chaddr)
    };
    Some(Reply { message_type: kind, packet, dst_ip, dst_mac, yiaddr })
}

// ---- Laws -------------------------------------------------------------------

proof fn lemma_encoded_first(o: Seq<(u8, Seq<u8>)>)
    requires
        o.len() > 0,
    ensures
        encoded(o) == seq![o[0].0, (o[0].1.len() % 256) as u8] + o[0].1 + encoded(o.skip(1)),
    decreases o.len(),
{
    let first = seq![o[0].0, (o[0].1.len() % 256) as u8] + o[0].1;
    if o.len() == 1 {
        assert(o.drop_last() =~= Seq::empty());
        assert(o.skip(1) =~= Seq::empty());
        assert(encoded(o) =~= first + encoded(o.skip(1)));
    } else {
        lemma_encoded_first(o.drop_last());
        assert(o.drop_last().skip(1) =~= o.skip(1).drop_last());
        assert(o.skip(1).last() == o.last());
        assert(encoded(o) =~= first + encoded(o.skip(1)));
    }
}

proof fn lemma_options_round_trip(o: Seq<(u8, Seq<u8>)>, tail: Seq<u8>)
    requires
        encodable(o),
        tail.len() > 0,
        tail[0] == OPT_END,
    ensures
        options_in(encoded(o) + tail) == Some(o),
    decreases o.len(),
{
    let p = encoded(o) + tail;
    if o.len() == 0 {
        assert(p =~= tail);
        assert(o =~= Seq::empty());
    } else {
        lemma_encoded_first(o);
        let len = o[0].1.len() as int;
        assert(p[0] == o[0].0);
        assert(p[1] == len);
        assert(p.subrange(2, 2 + len) =~= o[0].1);
        assert(p.skip(2 + len) =~= encoded(o.skip(1)) + tail);
        assert(encodable(o.skip(1)));
        lemma_options_round_trip(o.skip(1), tail);
        assert(seq![(p[0], p.subrange(2, 2 + len))] + o.skip(1) =~= o);
    }
}

/// Options that can be told apart from padding and end, with values whose
/// length fits in a byte.
pub open spec fn encodable(o: Seq<(u8, Seq<u8>)>) -> bool {
    forall|i: int|
        0 <= i < o.len() ==> (#[trigger] o[i]).0 != 0 && o[i].0 != OPT_END && o[i].1.len() <= 255
}

/// What is built is read back: header fields and options, in order.
pub proof fn law_dhcp_round_trip(
    op: u8,
    xid: u32,
    flags: u16,
    ciaddr: Ipv4Addr,
    yiaddr: Ipv4Addr,
    chaddr: Mac,
    options: Seq<(u8, Seq<u8>)>,
)
    requires
        encodable(options),
    ensures
        ({
            let p = bootp(op, xid, flags, ciaddr, yiaddr, chaddr, options);
            &&& p.len() >= MIN_REPLY_LEN
            &&& message_in(p) matches Some(m) && m.op == op && m.xid == xid && m.flags == flags
                && m.ciaddr == ciaddr && m.yiaddr == yiaddr && m.chaddr == chaddr && m.options
                == options
        }),
{
    let h = header(op, xid, flags, ciaddr, yiaddr, chaddr);
    let p = bootp(op, xid, flags, ciaddr, yiaddr, chaddr, options);
    let raw = h + encoded(options) + seq![OPT_END];
    let pad = if raw.len() < MIN_REPLY_LEN {
        zeros((MIN_REPLY_LEN - raw.len()) as nat)
    } else {
        Seq::empty()
    };
    assert(p =~= h + encoded(options) + (seq![OPT_END] + pad));
    assert(h.len() == 240);
    assert(p.skip(240) =~= encoded(options) + (seq![OPT_END] + pad));
    lemma_options_round_trip(options, seq![OPT_END] + pad);
    assert(p.subrange(236, 240) =~= magic());
    assert(p.subrange(4, 8) =~= be32_bytes(xid));
    assert(p.subrange(10, 12) =~= be16_bytes(flags));
    assert(p.subrange(12, 16) =~= be32_bytes(ciaddr.bits));
    assert(p.subrange(16, 20) =~= be32_bytes(yiaddr.bits));
    assert(p.subrange(28, 34) =~= chaddr.bytes());
    lemma_be32_in(p, 4, xid);
    lemma_be32_in(p, 12, ciaddr.bits);
    lemma_be32_in(p, 16, yiaddr.bits);
    crate::bytes::lemma_be16(flags);
    assert(p[10] == p.subrange(10, 12)[0] && p[11] == p.subrange(10, 12)[1]);
    assert(Mac::at(p, 28) == Mac::at(p.subrange(28, 34), 0));
}

proof fn lemma_be32_in(p: Seq<u8>, at: int, v: u32)
    requires
        0 <= at,
        at + 4 <= p.len(),
        p.subrange(at, at + 4) == be32_bytes(v),
    ensures
        be32_at(p, at) == v,
{
    crate::bytes::lemma_be32(v);
    let q = p.subrange(at, at + 4);
    assert(q[0] == p[at] && q[1] == p[at + 1] && q[2] == p[at + 2] && q[3] == p[at + 3]);
}

/// Only the lease's own address is ever assigned, and it comes with the
/// server's identifier; a REQUEST for any other address is refused.
pub proof fn law_dhcp_assigns_only_the_lease(m: Message, lease: Lease)
    ensures
        m.answer(lease) matches Some(a) ==> {
            &&& a.yiaddr == lease.client || a.yiaddr.bits == 0
            &&& a.message_type == OFFER ==> a.yiaddr == lease.client
            &&& a.message_type == NAK <==> m.message_type == Some(REQUEST) && m.wanted()
                != lease.client
        },
{
}

/// Every answer that the server sends can be read back with its kind, its
/// server identifier and the address that it assigns.
pub proof fn law_dhcp_answer_is_readable(m: Message, lease: Lease)
    ensures
        m.answer(lease) matches Some(a) ==> (message_in(a.packet) matches Some(r) && r.op == 2
            && r.xid == m.xid && r.chaddr == m.chaddr && r.yiaddr == a.yiaddr && r.message_type
            == Some(a.message_type) && r.server_id == Some(lease.server)),
{
    if let Some(a) = m.answer(lease) {
        let o = lease.offered(a.message_type, m.message_type == Some(INFORM));
        assert(encodable(o));
        law_dhcp_round_trip(2, m.xid, m.flags, m.ciaddr, a.yiaddr, m.chaddr, o);
        assert(first_option(o, OPT_MESSAGE_TYPE) == Some(o[0].1));
        assert(o.skip(1)[0] == o[1]);
        assert(first_option(o.skip(1), OPT_SERVER_ID) == Some(o[1].1));
        assert(first_option(o, OPT_SERVER_ID) == Some(lease.server.bytes()));
        crate::bytes::lemma_be32(lease.server.bits);
    }
}

} // verus!
