//! Wire formats: Ethernet II, ARP, IPv4, ICMP, UDP, TCP and checksums.
//!
//! Only what the virtual gateway needs. The parsers never fail on arbitrary
//! input: a malformed frame becomes `None`.
use vstd::prelude::*;
use vstd::slice::slice_subrange;
use vstd::arithmetic::div_mod::{lemma_fundamental_div_mod, lemma_mod_multiples_vanish, lemma_add_mod_noop};
use crate::bytes::{
    be16, be16_at, be16_bytes, be32, be32_at, be32_bytes, lemma_be16, lemma_be32, push_be16,
    push_be32, push_bytes,
};
use crate::net::addr::{mac_at, push_ip, push_mac, Ipv4Addr, Mac};

verus! {

pub const ETHERTYPE_IPV4: u16 = 0x0800;
pub const ETHERTYPE_ARP: u16 = 0x0806;
pub const ETHERTYPE_IPV6: u16 = 0x86dd;

pub const PROTO_ICMP: u8 = 1;
pub const PROTO_TCP: u8 = 6;
pub const PROTO_UDP: u8 = 17;

pub const ETH_HEADER_LEN: usize = 14;
pub const IPV4_HEADER_LEN: usize = 20;
pub const UDP_HEADER_LEN: usize = 8;
pub const TCP_HEADER_LEN: usize = 20;

/// The address whose bytes stand at `at`.
pub open spec fn ip_at(s: Seq<u8>, at: int) -> Ipv4Addr {
    Ipv4Addr { bits: be32_at(s, at) }
}

fn read_ip(b: &[u8], at: usize) -> (r: Ipv4Addr)
    requires
        at + 4 <= b@.len(),
    ensures
        r == ip_at(b@, at as int),
{
    Ipv4Addr { bits: be32(b, at) }
}

// ---- Internet checksum ------------------------------------------------------

/// The sum of the big-endian 16-bit words of `s`; an odd last byte counts as
/// the high half of a word.
pub open spec fn word_sum(s: Seq<u8>) -> nat
    decreases s.len(),
{
    if s.len() == 0 {
        0
    } else if s.len() == 1 {
        (s[0] * 0x100) as nat
    } else {
        (s[0] * 0x100 + s[1]) as nat + word_sum(s.skip(2))
    }
}

/// The one's complement of the one's complement sum of words that add up to
/// `sum`: the residue modulo 0xffff, where a non-zero sum never folds to 0.
pub open spec fn folded(sum: nat) -> u16 {
    if sum == 0 {
        0xffff
    } else {
        (0xffff - ((sum - 1) % 0xffff + 1)) as u16
    }
}

pub open spec fn spec_checksum(s: Seq<u8>) -> u16 {
    folded(word_sum(s))
}

/// The sum over the IPv4 pseudo header of a TCP or UDP segment.
pub open spec fn pseudo_sum(src: Ipv4Addr, dst: Ipv4Addr, proto: u8, len: nat) -> nat {
    word_sum(src.bytes()) + word_sum(dst.bytes()) + proto as nat + len
}

pub open spec fn spec_transport_checksum(
    src: Ipv4Addr,
    dst: Ipv4Addr,
    proto: u8,
    segment: Seq<u8>,
) -> u16 {
    folded(pseudo_sum(src, dst, proto, segment.len()) + word_sum(segment))
}

/// `acc` is `sum` folded to 16 bits: congruent modulo 0xffff, and 0 only for 0.
pub open spec fn is_fold(acc: u64, sum: nat) -> bool {
    &&& acc <= 0xffff
    &&& acc as nat % 0xffff == sum % 0xffff
    &&& acc == 0 <==> sum == 0
}

/// Adds `w` to a folded sum, with the carry brought around.
fn add_word(acc: u64, w: u64, Ghost(sum): Ghost<nat>) -> (r: u64)
    requires
        is_fold(acc, sum),
        w <= 0xffff,
    ensures
        is_fold(r, sum + w as nat),
{
    let s: u64 = acc + w;
    proof {
        lemma_add_mod_noop(acc as int, w as int, 0xffff);
        lemma_add_mod_noop(sum as int, w as int, 0xffff);
        assert(s as int % 0xffff == (sum + w) % 0xffff);
        lemma_mod_multiples_vanish(-1, s as int, 0xffff);
    }
    if s > 0xffff {
        s - 0xffff
    } else {
        s
    }
}

/// Adds two folded sums.
fn add_fold(acc: u64, w: u64, Ghost(sum): Ghost<nat>, Ghost(other): Ghost<nat>) -> (r: u64)
    requires
        is_fold(acc, sum),
        is_fold(w, other),
    ensures
        is_fold(r, sum + other),
{
    proof {
        lemma_add_mod_noop(sum as int, w as int, 0xffff);
        lemma_add_mod_noop(sum as int, other as int, 0xffff);
    }
    add_word(acc, w, Ghost(sum))
}

/// Adds the words of `data` to a folded sum.
fn sum_words(data: &[u8], start: u64, Ghost(sum): Ghost<nat>) -> (r: u64)
    requires
        is_fold(start, sum),
    ensures
        is_fold(r, sum + word_sum(data@)),
{
    let mut acc: u64 = start;
    let mut i: usize = 0;
    let ghost mut done: nat = sum;
    assert(data@.skip(0) =~= data@);
    while data.len() - i >= 2
        invariant
            i <= data@.len(),
            is_fold(acc, done),
            done + word_sum(data@.skip(i as int)) == sum + word_sum(data@),
        decreases data@.len() - i,
    {
        let w: u64 = data[i] as u64 * 0x100 + data[i + 1] as u64;
        acc = add_word(acc, w, Ghost(done));
        proof {
            done = done + w as nat;
            assert(data@.skip(i as int).skip(2) =~= data@.skip(i + 2));
        }
        i += 2;
    }
    if i < data.len() {
        let w: u64 = data[i] as u64 * 0x100;
        assert(data@.skip(i as int).len() == 1);
        acc = add_word(acc, w, Ghost(done));
    }
    acc
}

fn fold(acc: u64, Ghost(sum): Ghost<nat>) -> (r: u16)
    requires
        is_fold(acc, sum),
    ensures
        r == folded(sum),
{
    proof {
        if sum > 0 {
            let m = (sum - 1) % 0xffff;
            lemma_fundamental_div_mod(sum - 1, 0xffff);
            let q = (sum - 1) / 0xffff;
            assert(sum == 0xffff * q + (m + 1));
            lemma_mod_multiples_vanish(q, m + 1, 0xffff);
            assert(sum as int % 0xffff == (m + 1) % 0xffff);
            assert(acc as int == m + 1);
        }
    }
    (0xffff - acc) as u16
}

/// Internet checksum of `data`. On a header that already holds the right field
/// the result is 0.
pub fn checksum(data: &[u8]) -> (r: u16)
    ensures
        r == spec_checksum(data@),
{
    let acc: u64 = sum_words(data, 0, Ghost(0));
    fold(acc, Ghost(word_sum(data@)))
}

/// Checksum of TCP or UDP with the IPv4 pseudo header.
pub fn transport_checksum(src: Ipv4Addr, dst: Ipv4Addr, proto: u8, segment: &[u8]) -> (r: u16)
    ensures
        r == spec_transport_checksum(src, dst, proto, segment@),
{
    let s: [u8; 4] = src.octets();
    let d: [u8; 4] = dst.octets();
    let ghost mut sum: nat = word_sum(src.bytes());
    let mut acc: u64 = sum_words(s.as_slice(), 0, Ghost(0));
    acc = sum_words(d.as_slice(), acc, Ghost(sum));
    proof {
        sum = sum + word_sum(dst.bytes());
    }
    acc = add_word(acc, proto as u64, Ghost(sum));
    proof {
        sum = sum + proto as nat;
    }
    let len: u64 = segment.len() as u64;
    let rest: u64 = if len == 0 { 0 } else { (len - 1) % 0xffff + 1 };
    proof {
        if len > 0 {
            let q = (len - 1) as int / 0xffff;
            lemma_fundamental_div_mod(len - 1, 0xffff);
            assert(len == 0xffff * q + rest);
            lemma_mod_multiples_vanish(q, rest as int, 0xffff);
        }
    }
    acc = add_fold(acc, rest, Ghost(sum), Ghost(len as nat));
    proof {
        sum = sum + segment@.len();
    }
    acc = sum_words(segment, acc, Ghost(sum));
    fold(acc, Ghost(sum + word_sum(segment@)))
}

// ---- Ethernet ---------------------------------------------------------------

/// Ethernet II header (no VLAN: the guest uses none).
#[derive(Clone, Copy, Debug, PartialEq, Eq, Structural)]
pub struct EthHeader {
    pub dst: Mac,
    pub src: Mac,
    pub ethertype: u16,
}

pub open spec fn eth_at(frame: Seq<u8>) -> EthHeader {
    EthHeader { dst: Mac::at(frame, 0), src: Mac::at(frame, 6), ethertype: be16_at(frame, 12) }
}

pub open spec fn eth_frame(dst: Mac, src: Mac, ethertype: u16, payload: Seq<u8>) -> Seq<u8> {
    dst.bytes() + src.bytes() + be16_bytes(ethertype) + payload
}

pub fn parse_eth(frame: &[u8]) -> (r: Option<(EthHeader, &[u8])>)
    ensures
        match r {
            Some((h, payload)) => {
                &&& frame@.len() >= 14
                &&& h == eth_at(frame@)
                &&& payload@ == frame@.skip(14)
            },
            None => frame@.len() < 14,
        },
{
    if frame.len() < ETH_HEADER_LEN {
        return None;
    }
    let h = EthHeader { dst: mac_at(frame, 0), src: mac_at(frame, 6), ethertype: be16(frame, 12) };
    let payload = slice_subrange(frame, ETH_HEADER_LEN, frame.len());
    assert(payload@ =~= frame@.skip(14));
    Some((h, payload))
}

pub fn build_eth(dst: Mac, src: Mac, ethertype: u16, payload: &[u8]) -> (r: Vec<u8>)
    ensures
        r@ == eth_frame(dst, src, ethertype, payload@),
{
    let mut f: Vec<u8> = Vec::new();
    push_mac(&mut f, dst);
    push_mac(&mut f, src);
    push_be16(&mut f, ethertype);
    push_bytes(&mut f, payload);
    assert(f@ =~= eth_frame(dst, src, ethertype, payload@));
    f
}

/// A built frame parses back to its parts.
pub proof fn law_eth_round_trip(dst: Mac, src: Mac, ethertype: u16, payload: Seq<u8>)
    ensures
        ({
            let f = eth_frame(dst, src, ethertype, payload);
            &&& f.len() >= 14
            &&& eth_at(f) == (EthHeader { dst, src, ethertype })
            &&& f.skip(14) == payload
        }),
{
    let f = eth_frame(dst, src, ethertype, payload);
    lemma_be16(ethertype);
    assert(f.skip(14) =~= payload);
}

// ---- ARP (Ethernet/IPv4) ----------------------------------------------------

pub const ARP_REQUEST: u16 = 1;
pub const ARP_REPLY: u16 = 2;

#[derive(Clone, Copy, Debug, PartialEq, Eq, Structural)]
pub struct Arp {
    pub op: u16,
    pub sender_mac: Mac,
    pub sender_ip: Ipv4Addr,
    pub target_mac: Mac,
    pub target_ip: Ipv4Addr,
}

/// The ARP packet in `p`: htype 1, ptype IPv4, hlen 6, plen 4.
pub open spec fn arp_at(p: Seq<u8>) -> Option<Arp> {
    if p.len() < 28 || be16_at(p, 0) != 1 || be16_at(p, 2) != ETHERTYPE_IPV4 || p[4] != 6 || p[5]
        != 4 {
        None
    } else {
        Some(
            Arp {
                op: be16_at(p, 6),
                sender_mac: Mac::at(p, 8),
                sender_ip: ip_at(p, 14),
                target_mac: Mac::at(p, 18),
                target_ip: ip_at(p, 24),
            },
        )
    }
}

pub open spec fn arp_packet(a: Arp) -> Seq<u8> {
    be16_bytes(1) + be16_bytes(ETHERTYPE_IPV4) + seq![6u8, 4u8] + be16_bytes(a.op)
        + a.sender_mac.bytes() + a.sender_ip.bytes() + a.target_mac.bytes() + a.target_ip.bytes()
}

pub fn parse_arp(p: &[u8]) -> (r: Option<Arp>)
    ensures
        r == arp_at(p@),
{
    if p.len() < 28 || be16(p, 0) != 1 || be16(p, 2) != ETHERTYPE_IPV4 || p[4] != 6 || p[5] != 4 {
        return None;
    }
    Some(
        Arp {
            op: be16(p, 6),
            sender_mac: mac_at(p, 8),
            sender_ip: read_ip(p, 14),
            target_mac: mac_at(p, 18),
            target_ip: read_ip(p, 24),
        },
    )
}

pub fn build_arp(a: &Arp) -> (r: Vec<u8>)
    ensures
        r@ == arp_packet(*a),
{
    let mut p: Vec<u8> = Vec::new();
    push_be16(&mut p, 1);
    push_be16(&mut p, ETHERTYPE_IPV4);
    p.push(6);
    p.push(4);
    push_be16(&mut p, a.op);
    push_mac(&mut p, a.sender_mac);
    push_ip(&mut p, a.sender_ip);
    push_mac(&mut p, a.target_mac);
    push_ip(&mut p, a.target_ip);
    assert(p@ =~= arp_packet(*a));
    p
}

/// A built ARP packet parses back to what it was built from.
pub proof fn law_arp_round_trip(a: Arp)
    ensures
        arp_at(arp_packet(a)) == Some(a),
{
    let p = arp_packet(a);
    lemma_be16(a.op);
    lemma_be32(a.sender_ip.bits);
    lemma_be32(a.target_ip.bits);
    assert(be16_at(p, 6) == be16_at(be16_bytes(a.op), 0));
    assert(be32_at(p, 14) == be32_at(be32_bytes(a.sender_ip.bits), 0));
    assert(be32_at(p, 24) == be32_at(be32_bytes(a.target_ip.bits), 0));
}

// ---- Checksum fields --------------------------------------------------------

/// Filling a zero 16-bit field at an even offset adds its value to the sum.
pub proof fn lemma_sum_with_field(s: Seq<u8>, at: int, v: u16)
    requires
        0 <= at,
        at % 2 == 0,
        at + 2 <= s.len(),
        s[at] == 0,
        s[at + 1] == 0,
    ensures
        word_sum(crate::bytes::patched(s, at, be16_bytes(v))) == word_sum(s) + v,
    decreases at,
{
    let t = crate::bytes::patched(s, at, be16_bytes(v));
    if at == 0 {
        assert(t.skip(2) =~= s.skip(2));
    } else {
        lemma_sum_with_field(s.skip(2), at - 2, v);
        assert(t.skip(2) =~= crate::bytes::patched(s.skip(2), at - 2, be16_bytes(v)));
    }
}

/// Adding the checksum of a sum to it folds to 0.
pub proof fn lemma_checksum_cancels(sum: nat)
    ensures
        folded(sum + folded(sum) as nat) == 0,
        folded(sum) == 0 ==> folded(sum + 0xffff) == 0,
{
    if sum > 0 {
        let m = (sum - 1) % 0xffff;
        let q = (sum - 1) / 0xffff;
        lemma_fundamental_div_mod(sum - 1, 0xffff);
        assert(sum == 0xffff * q + m + 1);
        assert(sum + (0xffff - (m + 1)) - 1 == 0xffff * q + 0xfffe);
        lemma_mod_multiples_vanish(q, 0xfffe, 0xffff);
        if m == 0xfffe {
            assert(sum + 0xffff - 1 == 0xffff * (q + 1) + 0xfffe);
            lemma_mod_multiples_vanish(q + 1, 0xfffe, 0xffff);
        }
    }
}

/// Writes the 16-bit field at `at`.
fn put_field(p: &mut Vec<u8>, at: usize, v: u16)
    requires
        at + 2 <= old(p)@.len(),
    ensures
        final(p)@ == crate::bytes::patched(old(p)@, at as int, be16_bytes(v)),
{
    let n: usize = p.len();
    assert(at + 2 <= n);
    p.set(at, (v / 0x100) as u8);
    p.set(at + 1, (v % 0x100) as u8);
    assert(p@ =~= crate::bytes::patched(old(p)@, at as int, be16_bytes(v)));
}

// ---- IPv4 -------------------------------------------------------------------

#[derive(Clone, Copy, Debug, PartialEq, Eq, Structural)]
pub struct Ipv4Header {
    pub src: Ipv4Addr,
    pub dst: Ipv4Addr,
    pub proto: u8,
    pub ttl: u8,
    pub ident: u16,
    /// MF bit or non-zero offset: it is a fragment.
    pub fragment: bool,
    pub checksum_ok: bool,
}

/// Length of the header of the packet `p`, in bytes.
pub open spec fn ihl_of(p: Seq<u8>) -> int {
    (p[0] % 16) * 4
}

/// `p` starts with an IPv4 packet: version 4, and a header and a total length
/// that fit.
pub open spec fn is_ipv4(p: Seq<u8>) -> bool {
    &&& p.len() >= 20
    &&& p[0] / 16 == 4
    &&& 20 <= ihl_of(p) <= be16_at(p, 2) <= p.len()
}

pub open spec fn ipv4_at(p: Seq<u8>) -> Ipv4Header {
    Ipv4Header {
        src: ip_at(p, 12),
        dst: ip_at(p, 16),
        proto: p[9],
        ttl: p[8],
        ident: be16_at(p, 4),
        fragment: be16_at(p, 6) % 0x4000 != 0,
        checksum_ok: spec_checksum(p.take(ihl_of(p))) == 0,
    }
}

/// The payload of the packet, cut at the declared total length.
pub open spec fn ipv4_payload(p: Seq<u8>) -> Seq<u8> {
    p.subrange(ihl_of(p), be16_at(p, 2) as int)
}

/// Parses an IPv4 packet and returns header and payload (cut at the declared
/// total length: Ethernet padding is ignored).
pub fn parse_ipv4(p: &[u8]) -> (r: Option<(Ipv4Header, &[u8])>)
    ensures
        match r {
            Some((h, payload)) => {
                &&& is_ipv4(p@)
                &&& h == ipv4_at(p@)
                &&& payload@ == ipv4_payload(p@)
            },
            None => !is_ipv4(p@),
        },
{
    if p.len() < IPV4_HEADER_LEN || p[0] / 16 != 4 {
        return None;
    }
    let ihl: usize = (p[0] % 16) as usize * 4;
    let total: usize = be16(p, 2) as usize;
    if ihl < IPV4_HEADER_LEN || total < ihl || total > p.len() {
        return None;
    }
    let head = slice_subrange(p, 0, ihl);
    assert(head@ =~= p@.take(ihl as int));
    let h = Ipv4Header {
        src: read_ip(p, 12),
        dst: read_ip(p, 16),
        proto: p[9],
        ttl: p[8],
        ident: be16(p, 4),
        fragment: be16(p, 6) % 0x4000 != 0,
        checksum_ok: checksum(head) == 0,
    };
    Some((h, slice_subrange(p, ihl, total)))
}

/// The header of a built packet, before its checksum is filled in.
pub open spec fn ipv4_raw_header(
    src: Ipv4Addr,
    dst: Ipv4Addr,
    proto: u8,
    ident: u16,
    len: nat,
) -> Seq<u8> {
    seq![0x45u8, 0u8] + be16_bytes(((20 + len) % 0x1_0000) as u16) + be16_bytes(ident)
        + be16_bytes(0x4000) + seq![64u8, proto, 0u8, 0u8] + src.bytes() + dst.bytes()
}

pub open spec fn ipv4_header(
    src: Ipv4Addr,
    dst: Ipv4Addr,
    proto: u8,
    ident: u16,
    len: nat,
) -> Seq<u8> {
    let raw = ipv4_raw_header(src, dst, proto, ident, len);
    crate::bytes::patched(raw, 10, be16_bytes(spec_checksum(raw)))
}

pub open spec fn ipv4_packet(
    src: Ipv4Addr,
    dst: Ipv4Addr,
    proto: u8,
    ident: u16,
    payload: Seq<u8>,
) -> Seq<u8> {
    ipv4_header(src, dst, proto, ident, payload.len()) + payload
}

/// Builds an IPv4 packet without options, with DF set.
pub fn build_ipv4(src: Ipv4Addr, dst: Ipv4Addr, proto: u8, ident: u16, payload: &[u8]) -> (r: Vec<
    u8,
>)
    ensures
        r@ == ipv4_packet(src, dst, proto, ident, payload@),
{
    let total: u16 = ((payload.len() % 0x1_0000 + 20) % 0x1_0000) as u16;
    assert(total == ((20 + payload@.len()) % 0x1_0000) as u16);
    let mut p: Vec<u8> = Vec::new();
    p.push(0x45);
    p.push(0);
    push_be16(&mut p, total);
    push_be16(&mut p, ident);
    push_be16(&mut p, 0x4000);
    p.push(64);
    p.push(proto);
    p.push(0);
    p.push(0);
    push_ip(&mut p, src);
    push_ip(&mut p, dst);
    assert(p@ =~= ipv4_raw_header(src, dst, proto, ident, payload@.len()));
    let c: u16 = checksum(p.as_slice());
    put_field(&mut p, 10, c);
    push_bytes(&mut p, payload);
    p
}

/// A built packet parses back to its parts, with a good checksum.
pub proof fn law_ipv4_round_trip(
    src: Ipv4Addr,
    dst: Ipv4Addr,
    proto: u8,
    ident: u16,
    payload: Seq<u8>,
)
    requires
        20 + payload.len() <= 0xffff,
    ensures
        ({
            let p = ipv4_packet(src, dst, proto, ident, payload);
            &&& is_ipv4(p)
            &&& ipv4_at(p) == (Ipv4Header {
                src,
                dst,
                proto,
                ttl: 64,
                ident,
                fragment: false,
                checksum_ok: true,
            })
            &&& ipv4_payload(p) == payload
        }),
{
    let p = ipv4_packet(src, dst, proto, ident, payload);
    let raw = ipv4_raw_header(src, dst, proto, ident, payload.len());
    let c = spec_checksum(raw);
    lemma_be16(((20 + payload.len()) % 0x1_0000) as u16);
    lemma_be16(ident);
    lemma_be32(src.bits);
    lemma_be32(dst.bits);
    assert(be16_at(p, 2) == 20 + payload.len());
    assert(be16_at(p, 4) == be16_at(be16_bytes(ident), 0));
    assert(be32_at(p, 12) == be32_at(be32_bytes(src.bits), 0));
    assert(be32_at(p, 16) == be32_at(be32_bytes(dst.bits), 0));
    assert(p.take(20) =~= crate::bytes::patched(raw, 10, be16_bytes(c)));
    lemma_sum_with_field(raw, 10, c);
    lemma_checksum_cancels(word_sum(raw));
    assert(ipv4_payload(p) =~= payload);
}

// ---- ICMP -------------------------------------------------------------------

pub const ICMP_ECHO_REPLY: u8 = 0;
pub const ICMP_DEST_UNREACHABLE: u8 = 3;
pub const ICMP_ECHO_REQUEST: u8 = 8;
pub const ICMP_PORT_UNREACHABLE: u8 = 3;

pub open spec fn icmp_message(ty: u8, code: u8, rest: Seq<u8>, data: Seq<u8>) -> Seq<u8> {
    let raw = seq![ty, code, 0u8, 0u8] + rest + data;
    crate::bytes::patched(raw, 2, be16_bytes(spec_checksum(raw)))
}

/// ICMP message with its checksum.
pub fn build_icmp(ty: u8, code: u8, rest_of_header: [u8; 4], data: &[u8]) -> (r: Vec<u8>)
    ensures
        r@ == icmp_message(ty, code, rest_of_header@, data@),
{
    let mut m: Vec<u8> = Vec::new();
    m.push(ty);
    m.push(code);
    m.push(0);
    m.push(0);
    push_bytes(&mut m, rest_of_header.as_slice());
    push_bytes(&mut m, data);
    assert(m@ =~= seq![ty, code, 0u8, 0u8] + rest_of_header@ + data@);
    let c: u16 = checksum(m.as_slice());
    put_field(&mut m, 2, c);
    m
}

/// The checksum of a built ICMP message verifies.
pub proof fn law_icmp_checksum_verifies(ty: u8, code: u8, rest: Seq<u8>, data: Seq<u8>)
    ensures
        spec_checksum(icmp_message(ty, code, rest, data)) == 0,
{
    let raw = seq![ty, code, 0u8, 0u8] + rest + data;
    lemma_sum_with_field(raw, 2, spec_checksum(raw));
    lemma_checksum_cancels(word_sum(raw));
}

// ---- UDP --------------------------------------------------------------------

#[derive(Clone, Copy, Debug, PartialEq, Eq, Structural)]
pub struct UdpHeader {
    pub src_port: u16,
    pub dst_port: u16,
    pub checksum_ok: bool,
}

/// `s` starts with a UDP datagram whose declared length fits.
pub open spec fn is_udp(s: Seq<u8>) -> bool {
    s.len() >= 8 && 8 <= be16_at(s, 4) <= s.len()
}

/// The datagram cut at its declared length.
pub open spec fn udp_cut(s: Seq<u8>) -> Seq<u8> {
    s.take(be16_at(s, 4) as int)
}

pub open spec fn udp_at(src: Ipv4Addr, dst: Ipv4Addr, s: Seq<u8>) -> UdpHeader {
    UdpHeader {
        src_port: be16_at(s, 0),
        dst_port: be16_at(s, 2),
        // Checksum 0 in IPv4 means "not computed".
        checksum_ok: be16_at(s, 6) == 0 || spec_transport_checksum(src, dst, PROTO_UDP, udp_cut(s))
            == 0,
    }
}

pub open spec fn udp_payload(s: Seq<u8>) -> Seq<u8> {
    udp_cut(s).skip(8)
}

pub fn parse_udp<'a>(src: Ipv4Addr, dst: Ipv4Addr, s: &'a [u8]) -> (r: Option<
    (UdpHeader, &'a [u8]),
>)
    ensures
        match r {
            Some((h, payload)) => {
                &&& is_udp(s@)
                &&& h == udp_at(src, dst, s@)
                &&& payload@ == udp_payload(s@)
            },
            None => !is_udp(s@),
        },
{
    if s.len() < UDP_HEADER_LEN {
        return None;
    }
    let len: usize = be16(s, 4) as usize;
    if len < UDP_HEADER_LEN || len > s.len() {
        return None;
    }
    let cut = slice_subrange(s, 0, len);
    assert(cut@ =~= udp_cut(s@));
    let checksum_ok: bool = be16(s, 6) == 0 || transport_checksum(src, dst, PROTO_UDP, cut) == 0;
    let h = UdpHeader { src_port: be16(s, 0), dst_port: be16(s, 2), checksum_ok };
    let payload = slice_subrange(cut, UDP_HEADER_LEN, len);
    assert(payload@ =~= udp_payload(s@));
    Some((h, payload))
}

pub open spec fn udp_raw(sport: u16, dport: u16, payload: Seq<u8>) -> Seq<u8> {
    be16_bytes(sport) + be16_bytes(dport) + be16_bytes(((8 + payload.len()) % 0x1_0000) as u16)
        + seq![0u8, 0u8] + payload
}

pub open spec fn udp_datagram(
    src: Ipv4Addr,
    sport: u16,
    dst: Ipv4Addr,
    dport: u16,
    payload: Seq<u8>,
) -> Seq<u8> {
    let raw = udp_raw(sport, dport, payload);
    let c = spec_transport_checksum(src, dst, PROTO_UDP, raw);
    crate::bytes::patched(raw, 6, be16_bytes(if c == 0 { 0xffff } else { c }))
}

pub fn build_udp(src: Ipv4Addr, sport: u16, dst: Ipv4Addr, dport: u16, payload: &[u8]) -> (r: Vec<
    u8,
>)
    ensures
        r@ == udp_datagram(src, sport, dst, dport, payload@),
{
    let len: u16 = ((payload.len() % 0x1_0000 + 8) % 0x1_0000) as u16;
    assert(len == ((8 + payload@.len()) % 0x1_0000) as u16);
    let mut s: Vec<u8> = Vec::new();
    push_be16(&mut s, sport);
    push_be16(&mut s, dport);
    push_be16(&mut s, len);
    s.push(0);
    s.push(0);
    push_bytes(&mut s, payload);
    assert(s@ =~= udp_raw(sport, dport, payload@));
    let mut c: u16 = transport_checksum(src, dst, PROTO_UDP, s.as_slice());
    if c == 0 {
        c = 0xffff;
    }
    put_field(&mut s, 6, c);
    s
}

/// A built datagram parses back to its parts, with a good checksum that is
/// never 0 on the wire.
pub proof fn law_udp_round_trip(
    src: Ipv4Addr,
    sport: u16,
    dst: Ipv4Addr,
    dport: u16,
    payload: Seq<u8>,
)
    requires
        8 + payload.len() <= 0xffff,
    ensures
        ({
            let s = udp_datagram(src, sport, dst, dport, payload);
            &&& is_udp(s)
            &&& udp_at(src, dst, s) == (UdpHeader {
                src_port: sport,
                dst_port: dport,
                checksum_ok: true,
            })
            &&& udp_payload(s) == payload
            &&& be16_at(s, 6) != 0
        }),
{
    let raw = udp_raw(sport, dport, payload);
    let s = udp_datagram(src, sport, dst, dport, payload);
    let pseudo = pseudo_sum(src, dst, PROTO_UDP, raw.len());
    let c0 = spec_transport_checksum(src, dst, PROTO_UDP, raw);
    let c: u16 = if c0 == 0 { 0xffff } else { c0 };
    lemma_be16(sport);
    lemma_be16(dport);
    lemma_be16(c);
    lemma_be16(((8 + payload.len()) % 0x1_0000) as u16);
    assert(be16_at(s, 0) == be16_at(be16_bytes(sport), 0));
    assert(be16_at(s, 2) == be16_at(be16_bytes(dport), 0));
    assert(be16_at(s, 4) == 8 + payload.len());
    assert(be16_at(s, 6) == be16_at(be16_bytes(c), 0));
    assert(udp_cut(s) =~= s);
    lemma_sum_with_field(raw, 6, c);
    lemma_checksum_cancels(pseudo + word_sum(raw));
    assert(s.len() == raw.len());
    assert(udp_payload(s) =~= payload);
}

// ---- TCP --------------------------------------------------------------------

pub const TCP_FIN: u8 = 0x01;
pub const TCP_SYN: u8 = 0x02;
pub const TCP_RST: u8 = 0x04;
pub const TCP_PSH: u8 = 0x08;
pub const TCP_ACK: u8 = 0x10;

/// A parsed TCP segment (header and the options that matter here).
#[derive(Clone, Copy, Debug, PartialEq, Eq, Structural)]
pub struct TcpHeader {
    pub src_port: u16,
    pub dst_port: u16,
    pub seq: u32,
    pub ack: u32,
    pub flags: u8,
    pub window: u16,
    /// MSS option, usually only present in the SYN.
    pub mss: Option<u16>,
    pub checksum_ok: bool,
}

impl TcpHeader {
    pub open spec fn flag(self, flag: u8) -> bool {
        self.flags & flag != 0
    }

    pub fn has(&self, flag: u8) -> (r: bool)
        ensures
            r == self.flag(flag),
    {
        self.flags & flag != 0
    }
}

/// Length of the header of the segment `s`, in bytes.
pub open spec fn data_offset(s: Seq<u8>) -> int {
    (s[12] / 16) * 4
}

/// `s` is a TCP segment whose header fits.
pub open spec fn is_tcp(s: Seq<u8>) -> bool {
    s.len() >= 20 && 20 <= data_offset(s) <= s.len()
}

/// The MSS that the options announce (the last one, if several do): option
/// kind 2 of length 4. Kind 0 ends the list, kind 1 is padding, and a length
/// that does not fit ends the scan.
pub open spec fn mss_in(opts: Seq<u8>, found: Option<u16>) -> Option<u16>
    decreases opts.len(),
{
    if opts.len() == 0 || opts[0] == 0 {
        found
    } else if opts[0] == 1 {
        mss_in(opts.skip(1), found)
    } else if opts.len() == 1 || opts[1] < 2 || opts[1] > opts.len() {
        found
    } else {
        mss_in(
            opts.skip(opts[1] as int),
            if opts[0] == 2 && opts[1] == 4 {
                Some(be16_at(opts, 2))
            } else {
                found
            },
        )
    }
}

pub open spec fn tcp_at(src: Ipv4Addr, dst: Ipv4Addr, s: Seq<u8>) -> TcpHeader {
    TcpHeader {
        src_port: be16_at(s, 0),
        dst_port: be16_at(s, 2),
        seq: be32_at(s, 4),
        ack: be32_at(s, 8),
        flags: s[13],
        window: be16_at(s, 14),
        mss: mss_in(s.subrange(20, data_offset(s)), None),
        checksum_ok: spec_transport_checksum(src, dst, PROTO_TCP, s) == 0,
    }
}

fn read_mss(opts: &[u8]) -> (r: Option<u16>)
    requires
        opts@.len() <= 40,
    ensures
        r == mss_in(opts@, None),
{
    let mut mss: Option<u16> = None;
    let mut i: usize = 0;
    assert(opts@.skip(0) =~= opts@);
    while i < opts.len()
        invariant
            i <= opts@.len() <= 40,
            mss_in(opts@.skip(i as int), mss) == mss_in(opts@, None),
        decreases opts@.len() - i,
    {
        let ghost rest = opts@.skip(i as int);
        let kind: u8 = opts[i];
        if kind == 0 {
            return mss;
        }
        if kind == 1 {
            assert(rest.skip(1) =~= opts@.skip(i + 1));
            i += 1;
        } else {
            if i + 1 >= opts.len() {
                return mss;
            }
            let len: usize = opts[i + 1] as usize;
            if len < 2 || len > opts.len() - i {
                return mss;
            }
            if kind == 2 && len == 4 {
                mss = Some(be16(opts, i + 2));
                assert(be16_at(rest, 2) == be16_at(opts@, i + 2));
            }
            assert(rest.skip(len as int) =~= opts@.skip(i + len));
            i += len;
        }
    }
    mss
}

pub fn parse_tcp<'a>(src: Ipv4Addr, dst: Ipv4Addr, s: &'a [u8]) -> (r: Option<
    (TcpHeader, &'a [u8]),
>)
    ensures
        match r {
            Some((h, payload)) => {
                &&& is_tcp(s@)
                &&& h == tcp_at(src, dst, s@)
                &&& payload@ == s@.skip(data_offset(s@))
            },
            None => !is_tcp(s@),
        },
{
    if s.len() < TCP_HEADER_LEN {
        return None;
    }
    let off: usize = (s[12] / 16) as usize * 4;
    if off < TCP_HEADER_LEN || off > s.len() {
        return None;
    }
    let mss: Option<u16> = read_mss(slice_subrange(s, TCP_HEADER_LEN, off));
    let h = TcpHeader {
        src_port: be16(s, 0),
        dst_port: be16(s, 2),
        seq: be32(s, 4),
        ack: be32(s, 8),
        flags: s[13],
        window: be16(s, 14),
        mss,
        checksum_ok: transport_checksum(src, dst, PROTO_TCP, s) == 0,
    };
    let payload = slice_subrange(s, off, s.len());
    assert(payload@ =~= s@.skip(off as int));
    Some((h, payload))
}

/// A TCP segment to build.
#[derive(Clone, Copy, Debug)]
pub struct TcpOut<'a> {
    pub src: Ipv4Addr,
    pub src_port: u16,
    pub dst: Ipv4Addr,
    pub dst_port: u16,
    pub seq: u32,
    pub ack: u32,
    pub flags: u8,
    pub window: u16,
    pub mss: Option<u16>,
    pub payload: &'a [u8],
}

/// The segment before its checksum is filled in.
pub open spec fn tcp_raw(
    src_port: u16,
    dst_port: u16,
    seq: u32,
    ack: u32,
    flags: u8,
    window: u16,
    mss: Option<u16>,
    payload: Seq<u8>,
) -> Seq<u8> {
    be16_bytes(src_port) + be16_bytes(dst_port) + be32_bytes(seq) + be32_bytes(ack) + seq![
        if mss is Some {
            0x60u8
        } else {
            0x50u8
        },
        flags,
    ] + be16_bytes(window) + seq![0u8, 0u8, 0u8, 0u8] + (match mss {
        Some(m) => seq![2u8, 4u8] + be16_bytes(m),
        None => Seq::empty(),
    }) + payload
}

pub open spec fn tcp_segment(
    src: Ipv4Addr,
    src_port: u16,
    dst: Ipv4Addr,
    dst_port: u16,
    seq: u32,
    ack: u32,
    flags: u8,
    window: u16,
    mss: Option<u16>,
    payload: Seq<u8>,
) -> Seq<u8> {
    let raw = tcp_raw(src_port, dst_port, seq, ack, flags, window, mss, payload);
    crate::bytes::patched(
        raw,
        16,
        be16_bytes(spec_transport_checksum(src, dst, PROTO_TCP, raw)),
    )
}

pub fn build_tcp(t: &TcpOut<'_>) -> (r: Vec<u8>)
    ensures
        r@ == tcp_segment(
            t.src,
            t.src_port,
            t.dst,
            t.dst_port,
            t.seq,
            t.ack,
            t.flags,
            t.window,
            t.mss,
            t.payload@,
        ),
{
    let mut s: Vec<u8> = Vec::new();
    push_be16(&mut s, t.src_port);
    push_be16(&mut s, t.dst_port);
    push_be32(&mut s, t.seq);
    push_be32(&mut s, t.ack);
    s.push(if t.mss.is_some() { 0x60 } else { 0x50 });
    s.push(t.flags);
    push_be16(&mut s, t.window);
    s.push(0);
    s.push(0);
    s.push(0);
    s.push(0);
    match t.mss {
        Some(m) => {
            s.push(2);
            s.push(4);
            push_be16(&mut s, m);
        },
        None => {},
    }
    push_bytes(&mut s, t.payload);
    assert(s@ =~= tcp_raw(
        t.src_port,
        t.dst_port,
        t.seq,
        t.ack,
        t.flags,
        t.window,
        t.mss,
        t.payload@,
    ));
    let c: u16 = transport_checksum(t.src, t.dst, PROTO_TCP, s.as_slice());
    put_field(&mut s, 16, c);
    s
}

/// A built segment parses back to its parts, with a good checksum.
pub proof fn law_tcp_round_trip(
    src: Ipv4Addr,
    src_port: u16,
    dst: Ipv4Addr,
    dst_port: u16,
    seq: u32,
    ack: u32,
    flags: u8,
    window: u16,
    mss: Option<u16>,
    payload: Seq<u8>,
)
    ensures
        ({
            let s = tcp_segment(
                src,
                src_port,
                dst,
                dst_port,
                seq,
                ack,
                flags,
                window,
                mss,
                payload,
            );
            &&& is_tcp(s)
            &&& tcp_at(src, dst, s) == (TcpHeader {
                src_port,
                dst_port,
                seq,
                ack,
                flags,
                window,
                mss,
                checksum_ok: true,
            })
            &&& s.skip(data_offset(s)) == payload
        }),
{
    let raw = tcp_raw(src_port, dst_port, seq, ack, flags, window, mss, payload);
    let s = tcp_segment(src, src_port, dst, dst_port, seq, ack, flags, window, mss, payload);
    let c = spec_transport_checksum(src, dst, PROTO_TCP, raw);
    let pseudo = pseudo_sum(src, dst, PROTO_TCP, raw.len());
    lemma_be16(src_port);
    lemma_be16(dst_port);
    lemma_be16(window);
    lemma_be32(seq);
    lemma_be32(ack);
    assert(be16_at(s, 0) == be16_at(be16_bytes(src_port), 0));
    assert(be16_at(s, 2) == be16_at(be16_bytes(dst_port), 0));
    assert(be32_at(s, 4) == be32_at(be32_bytes(seq), 0));
    assert(be32_at(s, 8) == be32_at(be32_bytes(ack), 0));
    assert(be16_at(s, 14) == be16_at(be16_bytes(window), 0));
    lemma_sum_with_field(raw, 16, c);
    lemma_checksum_cancels(pseudo + word_sum(raw));
    match mss {
        Some(m) => {
            lemma_be16(m);
            let opts = s.subrange(20, 24);
            assert(opts =~= seq![2u8, 4u8] + be16_bytes(m));
            assert(be16_at(opts, 2) == be16_at(be16_bytes(m), 0));
            assert(opts.skip(4).len() == 0);
            assert(mss_in(opts.skip(4), Some(m)) == Some(m));
            assert(mss_in(opts, None) == Some(m));
        },
        None => {
            assert(s.subrange(20, 20).len() == 0);
        },
    }
    assert(s.skip(data_offset(s)) =~= payload);
}

} // verus!
