//! Addresses, flows and virtual time.
use vstd::prelude::*;
use crate::bytes::{be32_bytes, push_be32};
use crate::text::{hex8, number, push_hex8, push_number, push_text};

verus! {

/// Virtual time in microseconds, supplied by the caller (the platform). It
/// must not decrease from one call to the next.
#[derive(Clone, Copy, Debug, PartialEq, Eq, PartialOrd, Ord, Hash, Structural)]
pub struct VirtualTime(pub u64);

impl Default for VirtualTime {
    fn default() -> (r: Self)
        ensures
            r == VirtualTime(0),
    {
        VirtualTime(0)
    }
}

impl VirtualTime {
    pub fn from_micros(us: u64) -> (r: Self)
        ensures
            r == VirtualTime(us),
    {
        VirtualTime(us)
    }

    pub fn from_millis(ms: u64) -> (r: Self)
        requires
            ms * 1_000 <= u64::MAX,
        ensures
            r.0 == ms * 1_000,
    {
        VirtualTime(ms * 1_000)
    }

    pub fn from_secs(s: u64) -> (r: Self)
        requires
            s * 1_000_000 <= u64::MAX,
        ensures
            r.0 == s * 1_000_000,
    {
        VirtualTime(s * 1_000_000)
    }

    pub fn as_micros(self) -> (r: u64)
        ensures
            r == self.0,
    {
        self.0
    }

    pub open spec fn later(self, us: u64) -> VirtualTime {
        VirtualTime(if self.0 + us <= u64::MAX { (self.0 + us) as u64 } else { u64::MAX })
    }

    /// `self + us`, saturated.
    pub fn after(self, us: u64) -> (r: Self)
        ensures
            r == self.later(us),
    {
        VirtualTime(self.0.saturating_add(us))
    }
}

/// An IPv4 address, as the 32-bit number it is on the wire.
#[derive(Clone, Copy, Debug, PartialEq, Eq, PartialOrd, Ord, Hash, Structural)]
pub struct Ipv4Addr {
    pub bits: u32,
}

impl Ipv4Addr {
    pub open spec fn of(a: u8, b: u8, c: u8, d: u8) -> Ipv4Addr {
        Ipv4Addr { bits: (a * 0x100_0000 + b * 0x1_0000 + c * 0x100 + d) as u32 }
    }

    pub fn new(a: u8, b: u8, c: u8, d: u8) -> (r: Self)
        ensures
            r == Self::of(a, b, c, d),
    {
        Ipv4Addr { bits: a as u32 * 0x100_0000 + b as u32 * 0x1_0000 + c as u32 * 0x100 + d as u32 }
    }

    /// The four bytes, in network order.
    pub open spec fn bytes(self) -> Seq<u8> {
        be32_bytes(self.bits)
    }

    pub fn octets(&self) -> (r: [u8; 4])
        ensures
            r@ == self.bytes(),
    {
        let v: u32 = self.bits;
        let r: [u8; 4] = [
            (v / 0x100_0000) as u8,
            (v / 0x1_0000 % 0x100) as u8,
            (v / 0x100 % 0x100) as u8,
            (v % 0x100) as u8,
        ];
        assert(r@ =~= self.bytes());
        r
    }

    /// 0.0.0.0
    pub fn unspecified() -> (r: Self)
        ensures
            r.bits == 0,
    {
        Ipv4Addr { bits: 0 }
    }

    /// 255.255.255.255
    pub fn broadcast() -> (r: Self)
        ensures
            r.bits == 0xFFFF_FFFF,
    {
        Ipv4Addr { bits: 0xFFFF_FFFF }
    }

    pub fn is_unspecified(&self) -> (r: bool)
        ensures
            r == (self.bits == 0),
    {
        self.bits == 0
    }

    pub fn is_broadcast(&self) -> (r: bool)
        ensures
            r == (self.bits == 0xFFFF_FFFF),
    {
        self.bits == 0xFFFF_FFFF
    }

    /// 224.0.0.0/4
    pub open spec fn multicast(self) -> bool {
        0xE000_0000 <= self.bits < 0xF000_0000
    }

    pub fn is_multicast(&self) -> (r: bool)
        ensures
            r == self.multicast(),
    {
        0xE000_0000 <= self.bits && self.bits < 0xF000_0000
    }
}

/// Appends the four bytes of an address.
pub fn push_ip(v: &mut Vec<u8>, ip: Ipv4Addr)
    ensures
        final(v)@ == old(v)@ + ip.bytes(),
{
    push_be32(v, ip.bits);
}

/// An IPv4 address and a port.
#[derive(Clone, Copy, Debug, PartialEq, Eq, PartialOrd, Ord, Hash, Structural)]
pub struct SocketAddrV4 {
    pub ip: Ipv4Addr,
    pub port: u16,
}

impl SocketAddrV4 {
    pub fn new(ip: Ipv4Addr, port: u16) -> (r: Self)
        ensures
            r == (SocketAddrV4 { ip, port }),
    {
        SocketAddrV4 { ip, port }
    }

    pub fn ip(&self) -> (r: &Ipv4Addr)
        ensures
            *r == self.ip,
    {
        &self.ip
    }

    pub fn port(&self) -> (r: u16)
        ensures
            r == self.port,
    {
        self.port
    }
}

/// Identifier of a TCP connection or of a UDP flow, unique for the whole life
/// of the stack and assigned in ascending order from 1.
pub type ConnId = u64;

/// The quadruple of a connection as the guest sees it: `guest` is the end in
/// the guest, `remote` the destination that the guest believes it contacts.
#[derive(Clone, Copy, Debug, PartialEq, Eq, PartialOrd, Ord, Hash, Structural)]
pub struct Flow {
    pub guest: SocketAddrV4,
    pub remote: SocketAddrV4,
}

/// A MAC address, byte by byte.
#[derive(Clone, Copy, Debug, PartialEq, Eq, PartialOrd, Ord, Hash, Structural)]
pub struct Mac {
    pub b0: u8,
    pub b1: u8,
    pub b2: u8,
    pub b3: u8,
    pub b4: u8,
    pub b5: u8,
}

impl Mac {
    pub open spec fn bytes(self) -> Seq<u8> {
        seq![self.b0, self.b1, self.b2, self.b3, self.b4, self.b5]
    }

    /// The address whose bytes stand at `at`.
    pub open spec fn at(s: Seq<u8>, at: int) -> Mac {
        Mac { b0: s[at], b1: s[at + 1], b2: s[at + 2], b3: s[at + 3], b4: s[at + 4], b5: s[at + 5] }
    }

    pub fn new(b: [u8; 6]) -> (r: Self)
        ensures
            r.bytes() == b@,
    {
        let r = Mac { b0: b[0], b1: b[1], b2: b[2], b3: b[3], b4: b[4], b5: b[5] };
        assert(r.bytes() =~= b@);
        r
    }

    pub fn octets(&self) -> (r: [u8; 6])
        ensures
            r@ == self.bytes(),
    {
        let r: [u8; 6] = [self.b0, self.b1, self.b2, self.b3, self.b4, self.b5];
        assert(r@ =~= self.bytes());
        r
    }

    pub open spec fn all(b: u8) -> Mac {
        Mac { b0: b, b1: b, b2: b, b3: b, b4: b, b5: b }
    }

    /// ff:ff:ff:ff:ff:ff
    pub fn broadcast() -> (r: Self)
        ensures
            r == Self::all(0xFF),
    {
        Mac { b0: 0xFF, b1: 0xFF, b2: 0xFF, b3: 0xFF, b4: 0xFF, b5: 0xFF }
    }

    /// 00:00:00:00:00:00
    pub fn zero() -> (r: Self)
        ensures
            r == Self::all(0),
    {
        Mac { b0: 0, b1: 0, b2: 0, b3: 0, b4: 0, b5: 0 }
    }

    pub fn is_broadcast(self) -> (r: bool)
        ensures
            r == (self == Self::all(0xFF)),
    {
        self == Mac::broadcast()
    }

    pub fn is_multicast(self) -> (r: bool)
        ensures
            r == (self.b0 & 1 != 0),
    {
        self.b0 & 1 != 0
    }
}

/// Reads the address whose bytes stand at `at`.
pub fn mac_at(b: &[u8], at: usize) -> (r: Mac)
    requires
        at + 6 <= b@.len(),
    ensures
        r == Mac::at(b@, at as int),
{
    Mac { b0: b[at], b1: b[at + 1], b2: b[at + 2], b3: b[at + 3], b4: b[at + 4], b5: b[at + 5] }
}

/// Appends the six bytes of an address.
pub fn push_mac(v: &mut Vec<u8>, m: Mac)
    ensures
        final(v)@ == old(v)@ + m.bytes(),
{
    v.push(m.b0);
    v.push(m.b1);
    v.push(m.b2);
    v.push(m.b3);
    v.push(m.b4);
    v.push(m.b5);
    assert(v@ =~= old(v)@ + m.bytes());
}

// ---- Text -------------------------------------------------------------------

impl Ipv4Addr {
    pub open spec fn text(self) -> Seq<char> {
        let b = self.bytes();
        number(b[0] as u64) + "."@ + number(b[1] as u64) + "."@ + number(b[2] as u64) + "."@
            + number(b[3] as u64)
    }

    pub fn push_to(&self, s: &mut String)
        ensures
            final(s)@ == old(s)@ + self.text(),
    {
        let b: [u8; 4] = self.octets();
        push_number(s, b[0] as u64);
        push_text(s, ".");
        push_number(s, b[1] as u64);
        push_text(s, ".");
        push_number(s, b[2] as u64);
        push_text(s, ".");
        push_number(s, b[3] as u64);
        assert(s@ =~= old(s)@ + self.text());
    }

    /// The address in dotted form.
    pub fn to_string(&self) -> (r: String)
        ensures
            r@ == self.text(),
    {
        let mut s: String = String::new();
        self.push_to(&mut s);
        assert(s@ =~= self.text());
        s
    }
}

impl SocketAddrV4 {
    pub open spec fn text(self) -> Seq<char> {
        self.ip.text() + ":"@ + number(self.port as u64)
    }

    pub fn push_to(&self, s: &mut String)
        ensures
            final(s)@ == old(s)@ + self.text(),
    {
        self.ip.push_to(s);
        push_text(s, ":");
        push_number(s, self.port as u64);
        assert(s@ =~= old(s)@ + self.text());
    }

    /// Address and port.
    pub fn to_string(&self) -> (r: String)
        ensures
            r@ == self.text(),
    {
        let mut s: String = String::new();
        self.push_to(&mut s);
        assert(s@ =~= self.text());
        s
    }
}

impl Flow {
    pub open spec fn text(self) -> Seq<char> {
        self.guest.text() + " -> "@ + self.remote.text()
    }

    pub fn push_to(&self, s: &mut String)
        ensures
            final(s)@ == old(s)@ + self.text(),
    {
        self.guest.push_to(s);
        push_text(s, " -> ");
        self.remote.push_to(s);
        assert(s@ =~= old(s)@ + self.text());
    }

    /// The two ends, with an arrow from the guest.
    pub fn to_string(&self) -> (r: String)
        ensures
            r@ == self.text(),
    {
        let mut s: String = String::new();
        self.push_to(&mut s);
        assert(s@ =~= self.text());
        s
    }
}

impl Mac {
    pub open spec fn text(self) -> Seq<char> {
        hex8(self.b0) + ":"@ + hex8(self.b1) + ":"@ + hex8(self.b2) + ":"@ + hex8(self.b3) + ":"@
            + hex8(self.b4) + ":"@ + hex8(self.b5)
    }

    pub fn push_to(&self, s: &mut String)
        ensures
            final(s)@ == old(s)@ + self.text(),
    {
        push_hex8(s, self.b0);
        push_text(s, ":");
        push_hex8(s, self.b1);
        push_text(s, ":");
        push_hex8(s, self.b2);
        push_text(s, ":");
        push_hex8(s, self.b3);
        push_text(s, ":");
        push_hex8(s, self.b4);
        push_text(s, ":");
        push_hex8(s, self.b5);
        assert(s@ =~= old(s)@ + self.text());
    }

    /// The six bytes in hexadecimal, with colons.
    pub fn to_string(&self) -> (r: String)
        ensures
            r@ == self.text(),
    {
        let mut s: String = String::new();
        self.push_to(&mut s);
        assert(s@ =~= self.text());
        s
    }
}

} // verus!
