//! The state of the machine as a sequence of fields.
//!
//! What is saved is a list of [`Field`]s; how a field is written down, as bytes in
//! a file, is the business of whoever stores them. What is restored is read from
//! a [`Source`], which is asked for one field after the other by its [`Kind`].
//! [`Cursor`] is the source that reads a list of fields back.
use vstd::prelude::*;
use crate::net::addr::{Ipv4Addr, Mac};
use crate::net::events::opt_text;
use crate::text::{hexadecimal, number, push_hexadecimal, push_number, push_text};

verus! {

/// The kind of a field. Optional values and byte strings are single fields.
#[derive(Clone, Copy, Debug, PartialEq, Eq, Structural)]
pub enum Kind {
    U8,
    U16,
    U32,
    U64,
    Bool,
    /// A length that stands for itself.
    Len,
    /// The number of rows that follow, each of at least this many bytes.
    Count(u64),
    /// A byte string of this length, without its length.
    Raw(u64),
    /// A byte string with its length.
    Bytes,
    /// A byte string, byte by byte.
    Octets,
    Text,
    Mac,
    Ip,
    OptU8,
    OptU32,
    OptU64,
    OptTime,
    /// A sequence number and a time.
    OptSample,
    OptBytes,
    OptText,
    OptMac,
    OptIp,
    Ips,
    /// Byte strings.
    Frames,
    /// Pairs of a number and a byte string.
    Dated,
    /// Pairs of numbers of 32 bits.
    Pairs,
    /// A chain of buffers: its head, the readable and the writable ones.
    OptChain,
    /// A byte string of this length, in compressed form.
    Packed(u64),
    /// Start of a section.
    Section(u32),
    /// End of a section.
    End,
}

/// A field.
#[derive(Clone, Debug, PartialEq, Eq)]
pub enum Field {
    U8(u8),
    U16(u16),
    U32(u32),
    U64(u64),
    Bool(bool),
    Len(u64),
    Count(u64),
    Raw(Vec<u8>),
    Bytes(Vec<u8>),
    Octets(Vec<u8>),
    Text(String),
    Mac(Mac),
    Ip(Ipv4Addr),
    OptU8(Option<u8>),
    OptU32(Option<u32>),
    OptU64(Option<u64>),
    OptTime(Option<u64>),
    OptSample(Option<(u32, u64)>),
    OptBytes(Option<Vec<u8>>),
    OptText(Option<String>),
    OptMac(Option<Mac>),
    OptIp(Option<Ipv4Addr>),
    Ips(Vec<Ipv4Addr>),
    Frames(Vec<Vec<u8>>),
    Dated(Vec<(u64, Vec<u8>)>),
    Pairs(Vec<(u32, u32)>),
    OptChain(Option<(u16, Vec<(u64, u32)>, Vec<(u64, u32)>)>),
    Packed(Vec<u8>),
    Section(u32),
    End,
}

/// What a [`Field`] says.
#[verifier::ext_equal]
pub enum Token {
    U8(u8),
    U16(u16),
    U32(u32),
    U64(u64),
    Bool(bool),
    Len(u64),
    Count(u64),
    Raw(Seq<u8>),
    Bytes(Seq<u8>),
    Octets(Seq<u8>),
    Text(Seq<char>),
    Mac(Mac),
    Ip(Ipv4Addr),
    OptU8(Option<u8>),
    OptU32(Option<u32>),
    OptU64(Option<u64>),
    OptTime(Option<u64>),
    OptSample(Option<(u32, u64)>),
    OptBytes(Option<Seq<u8>>),
    OptText(Option<Seq<char>>),
    OptMac(Option<Mac>),
    OptIp(Option<Ipv4Addr>),
    Ips(Seq<Ipv4Addr>),
    Frames(Seq<Seq<u8>>),
    Dated(Seq<(u64, Seq<u8>)>),
    Pairs(Seq<(u32, u32)>),
    OptChain(Option<(u16, Seq<(u64, u32)>, Seq<(u64, u32)>)>),
    Packed(Seq<u8>),
    Section(u32),
    End,
}

pub open spec fn frames_view(s: Seq<Vec<u8>>) -> Seq<Seq<u8>> {
    s.map_values(|f: Vec<u8>| f@)
}

pub open spec fn dated_view(s: Seq<(u64, Vec<u8>)>) -> Seq<(u64, Seq<u8>)> {
    s.map_values(|e: (u64, Vec<u8>)| (e.0, e.1@))
}

impl View for Field {
    type V = Token;

    open spec fn view(&self) -> Token {
        match self {
            Field::U8(v) => Token::U8(*v),
            Field::U16(v) => Token::U16(*v),
            Field::U32(v) => Token::U32(*v),
            Field::U64(v) => Token::U64(*v),
            Field::Bool(v) => Token::Bool(*v),
            Field::Len(v) => Token::Len(*v),
            Field::Count(v) => Token::Count(*v),
            Field::Raw(v) => Token::Raw(v@),
            Field::Bytes(v) => Token::Bytes(v@),
            Field::Octets(v) => Token::Octets(v@),
            Field::Text(v) => Token::Text(v@),
            Field::Mac(v) => Token::Mac(*v),
            Field::Ip(v) => Token::Ip(*v),
            Field::OptU8(v) => Token::OptU8(*v),
            Field::OptU32(v) => Token::OptU32(*v),
            Field::OptU64(v) => Token::OptU64(*v),
            Field::OptTime(v) => Token::OptTime(*v),
            Field::OptSample(v) => Token::OptSample(*v),
            Field::OptBytes(v) => Token::OptBytes(
                match v {
                    Some(b) => Some(b@),
                    None => None,
                },
            ),
            Field::OptText(v) => Token::OptText(
                match v {
                    Some(t) => Some(t@),
                    None => None,
                },
            ),
            Field::OptMac(v) => Token::OptMac(*v),
            Field::OptIp(v) => Token::OptIp(*v),
            Field::Ips(v) => Token::Ips(v@),
            Field::Frames(v) => Token::Frames(frames_view(v@)),
            Field::Dated(v) => Token::Dated(dated_view(v@)),
            Field::Pairs(v) => Token::Pairs(v@),
            Field::OptChain(v) => Token::OptChain(
                match v {
                    Some(c) => Some((c.0, c.1@, c.2@)),
                    None => None,
                },
            ),
            Field::Packed(v) => Token::Packed(v@),
            Field::Section(t) => Token::Section(*t),
            Field::End => Token::End,
        }
    }
}

impl Token {
    /// The field is one that a reader who asks for `k` gets.
    pub open spec fn is_kind(self, k: Kind) -> bool {
        match k {
            Kind::U8 => self is U8,
            Kind::U16 => self is U16,
            Kind::U32 => self is U32,
            Kind::U64 => self is U64,
            Kind::Bool => self is Bool,
            Kind::Len => self is Len,
            Kind::Count(_) => self is Count,
            Kind::Raw(n) => self matches Token::Raw(b) && b.len() == n,
            Kind::Bytes => self is Bytes,
            Kind::Octets => self is Octets,
            Kind::Text => self is Text,
            Kind::Mac => self is Mac,
            Kind::Ip => self is Ip,
            Kind::OptU8 => self is OptU8,
            Kind::OptU32 => self is OptU32,
            Kind::OptU64 => self is OptU64,
            Kind::OptTime => self is OptTime,
            Kind::OptSample => self is OptSample,
            Kind::OptBytes => self is OptBytes,
            Kind::OptText => self is OptText,
            Kind::OptMac => self is OptMac,
            Kind::OptIp => self is OptIp,
            Kind::Ips => self is Ips,
            Kind::Frames => self is Frames,
            Kind::Dated => self is Dated,
            Kind::Pairs => self is Pairs,
            Kind::OptChain => self is OptChain,
            Kind::Packed(n) => self matches Token::Packed(b) && b.len() == n,
            Kind::Section(t) => self == Token::Section(t),
            Kind::End => self is End,
        }
    }
}

impl Field {
    /// Whether a reader who asks for `k` gets this field.
    pub fn is_kind(&self, k: Kind) -> (r: bool)
        ensures
            r == self@.is_kind(k),
    {
        match (self, k) {
            (Field::U8(_), Kind::U8) => true,
            (Field::U16(_), Kind::U16) => true,
            (Field::U32(_), Kind::U32) => true,
            (Field::U64(_), Kind::U64) => true,
            (Field::Bool(_), Kind::Bool) => true,
            (Field::Len(_), Kind::Len) => true,
            (Field::Count(_), Kind::Count(_)) => true,
            (Field::Raw(b), Kind::Raw(n)) => b.len() as u64 == n,
            (Field::Bytes(_), Kind::Bytes) => true,
            (Field::Octets(_), Kind::Octets) => true,
            (Field::Text(_), Kind::Text) => true,
            (Field::Mac(_), Kind::Mac) => true,
            (Field::Ip(_), Kind::Ip) => true,
            (Field::OptU8(_), Kind::OptU8) => true,
            (Field::OptU32(_), Kind::OptU32) => true,
            (Field::OptU64(_), Kind::OptU64) => true,
            (Field::OptTime(_), Kind::OptTime) => true,
            (Field::OptSample(_), Kind::OptSample) => true,
            (Field::OptBytes(_), Kind::OptBytes) => true,
            (Field::OptText(_), Kind::OptText) => true,
            (Field::OptMac(_), Kind::OptMac) => true,
            (Field::OptIp(_), Kind::OptIp) => true,
            (Field::Ips(_), Kind::Ips) => true,
            (Field::Frames(_), Kind::Frames) => true,
            (Field::Dated(_), Kind::Dated) => true,
            (Field::Pairs(_), Kind::Pairs) => true,
            (Field::OptChain(_), Kind::OptChain) => true,
            (Field::Packed(b), Kind::Packed(n)) => b.len() as u64 == n,
            (Field::Section(a), Kind::Section(b)) => *a == b,
            (Field::End, Kind::End) => true,
            _ => false,
        }
    }
}

/// Why a state was not restored.
#[derive(Clone, Copy, Debug, PartialEq, Eq, Structural)]
pub enum Fault {
    /// The source does not have the field that was asked for.
    Missing,
    /// A field is not what this machine has: another configuration.
    Differs(Subject),
    /// A direction that does not exist.
    Direction(u8),
    /// A reason for closing that does not exist.
    Reason(u8),
    /// A DHCP message that does not exist.
    Dhcp(u8),
    /// A kind of event that does not exist.
    Event(u8),
    /// A state of a TCP connection that does not exist.
    TcpState(u8),
    /// A connection under the key of another.
    WrongKey { id: u64, key: u64 },
    /// A state of a vsock connection that does not exist.
    VsockState(u8),
    /// A cluster past the end of the disk, or twice.
    Cluster(u64),
    /// Flags of an interrupt that do not exist.
    Interrupt(u8),
}

/// What differs from the configuration of this machine.
#[derive(Clone, Copy, Debug, PartialEq, Eq, Structural)]
pub enum Subject {
    Sectors,
    DiskReadOnly,
    DiskSerial,
    MemoryReadOnly,
    MemoryDigest,
    DiskSize,
    NetMac,
    MergeOffer,
    InputConfig,
    GuestCid,
    Intids,
}

impl Subject {
    pub open spec fn text(self) -> Seq<char> {
        match self {
            Subject::Sectors => "settori del disco"@,
            Subject::DiskReadOnly => "sola lettura del disco"@,
            Subject::DiskSerial => "identificativo del disco diverso"@,
            Subject::MemoryReadOnly => "sola lettura del disco in memoria"@,
            Subject::MemoryDigest => "hash del disco in memoria"@,
            Subject::DiskSize => "dimensione del disco"@,
            Subject::NetMac => "MAC di virtio-net diverso"@,
            Subject::MergeOffer => "offerta di MRG_RXBUF"@,
            Subject::InputConfig => "configurazione di virtio-input"@,
            Subject::GuestCid => "CID del guest"@,
            Subject::Intids => "INTID del GIC"@,
        }
    }

    fn label(self) -> (r: &'static str)
        ensures
            r@ == self.text(),
    {
        match self {
            Subject::Sectors => "settori del disco",
            Subject::DiskReadOnly => "sola lettura del disco",
            Subject::DiskSerial => "identificativo del disco diverso",
            Subject::MemoryReadOnly => "sola lettura del disco in memoria",
            Subject::MemoryDigest => "hash del disco in memoria",
            Subject::DiskSize => "dimensione del disco",
            Subject::NetMac => "MAC di virtio-net diverso",
            Subject::MergeOffer => "offerta di MRG_RXBUF",
            Subject::InputConfig => "configurazione di virtio-input",
            Subject::GuestCid => "CID del guest",
            Subject::Intids => "INTID del GIC",
        }
    }
}

impl Fault {
    pub open spec fn text(self) -> Seq<char> {
        match self {
            Fault::Missing => "campo mancante"@,
            Fault::Differs(s) => s.text(),
            Fault::Direction(v) => "verso "@ + number(v as u64),
            Fault::Reason(v) => "motivo di chiusura "@ + number(v as u64),
            Fault::Dhcp(v) => "messaggio DHCP "@ + number(v as u64),
            Fault::Event(v) => "evento di rete "@ + number(v as u64),
            Fault::TcpState(v) => "stato TCP "@ + number(v as u64),
            Fault::WrongKey { id, key } => "connessione "@ + number(id) + " sotto la chiave "@
                + number(key),
            Fault::VsockState(v) => "stato vsock "@ + number(v as u64),
            Fault::Cluster(c) => "cluster "@ + number(c) + " del disco"@,
            Fault::Interrupt(f) => "stato di un interrupt 0x"@ + hexadecimal(f as nat),
        }
    }

    /// The fault in words.
    pub fn to_string(&self) -> (r: String)
        ensures
            r@ == self.text(),
    {
        let mut s: String = String::new();
        match *self {
            Fault::Missing => push_text(&mut s, "campo mancante"),
            Fault::Differs(subject) => push_text(&mut s, subject.label()),
            Fault::Direction(v) => {
                push_text(&mut s, "verso ");
                push_number(&mut s, v as u64);
            },
            Fault::Reason(v) => {
                push_text(&mut s, "motivo di chiusura ");
                push_number(&mut s, v as u64);
            },
            Fault::Dhcp(v) => {
                push_text(&mut s, "messaggio DHCP ");
                push_number(&mut s, v as u64);
            },
            Fault::Event(v) => {
                push_text(&mut s, "evento di rete ");
                push_number(&mut s, v as u64);
            },
            Fault::TcpState(v) => {
                push_text(&mut s, "stato TCP ");
                push_number(&mut s, v as u64);
            },
            Fault::WrongKey { id, key } => {
                push_text(&mut s, "connessione ");
                push_number(&mut s, id);
                push_text(&mut s, " sotto la chiave ");
                push_number(&mut s, key);
            },
            Fault::VsockState(v) => {
                push_text(&mut s, "stato vsock ");
                push_number(&mut s, v as u64);
            },
            Fault::Cluster(c) => {
                push_text(&mut s, "cluster ");
                push_number(&mut s, c);
                push_text(&mut s, " del disco");
            },
            Fault::Interrupt(f) => {
                push_text(&mut s, "stato di un interrupt 0x");
                push_hexadecimal(&mut s, f as u64);
            },
        }
        assert(s@ =~= self.text());
        s
    }
}

/// Where a saved state is read from: `rest` are the fields still to be read. By
/// default there are none.
pub trait Source: Sized {
    open spec fn rest(&self) -> Seq<Token> {
        Seq::empty()
    }

    /// The next field, if it is of kind `k`.
    fn next(&mut self, k: Kind) -> (r: Result<Field, Fault>)
        ensures
            match r {
                Ok(f) => {
                    &&& old(self).rest().len() > 0
                    &&& f@ == old(self).rest()[0]
                    &&& f@.is_kind(k)
                    &&& final(self).rest() == old(self).rest().skip(1)
                },
                Err(e) => {
                    &&& e == Fault::Missing
                    &&& old(self).rest().len() == 0 || !old(self).rest()[0].is_kind(k)
                },
            },
    ;
}

/// The tokens of a list of fields.
pub open spec fn tokens(fs: Seq<Field>) -> Seq<Token> {
    fs.map_values(|f: Field| f@)
}

/// Reads a list of fields, in order.
pub struct Cursor {
    pub fields: Vec<Field>,
    pub at: usize,
}

impl Cursor {
    pub fn new(fields: Vec<Field>) -> (r: Self)
        ensures
            r.rest() == tokens(fields@),
    {
        let r = Cursor { fields, at: 0 };
        assert(r.rest() =~= tokens(fields@));
        r
    }

    /// Whether every field was read.
    pub fn is_done(&self) -> (r: bool)
        ensures
            r == (self.rest().len() == 0),
    {
        self.at >= self.fields.len()
    }
}

pub fn copy_bytes(v: &Vec<u8>) -> (r: Vec<u8>)
    ensures
        r@ == v@,
{
    crate::bytes::to_vec(v.as_slice())
}

pub fn copy_text(s: &String) -> (r: String)
    ensures
        r@ == s@,
{
    let mut t: String = String::new();
    push_text(&mut t, s.as_str());
    assert(t@ =~= s@);
    t
}

pub fn copy_list<T: Copy>(v: &Vec<T>) -> (r: Vec<T>)
    ensures
        r@ == v@,
{
    let mut r: Vec<T> = Vec::new();
    let mut i: usize = 0;
    while i < v.len()
        invariant
            i <= v@.len(),
            r@ == v@.take(i as int),
        decreases v@.len() - i,
    {
        r.push(v[i]);
        i += 1;
        assert(r@ =~= v@.take(i as int));
    }
    assert(r@ =~= v@);
    r
}

pub fn copy_frames(v: &Vec<Vec<u8>>) -> (r: Vec<Vec<u8>>)
    ensures
        frames_view(r@) == frames_view(v@),
{
    let mut r: Vec<Vec<u8>> = Vec::new();
    let mut i: usize = 0;
    while i < v.len()
        invariant
            i <= v@.len(),
            r@.len() == i,
            frames_view(r@) == frames_view(v@).take(i as int),
        decreases v@.len() - i,
    {
        r.push(copy_bytes(&v[i]));
        i += 1;
        assert(frames_view(r@) =~= frames_view(v@).take(i as int));
    }
    assert(frames_view(r@) =~= frames_view(v@));
    r
}

pub fn copy_dated(v: &Vec<(u64, Vec<u8>)>) -> (r: Vec<(u64, Vec<u8>)>)
    ensures
        dated_view(r@) == dated_view(v@),
{
    let mut r: Vec<(u64, Vec<u8>)> = Vec::new();
    let mut i: usize = 0;
    while i < v.len()
        invariant
            i <= v@.len(),
            r@.len() == i,
            dated_view(r@) == dated_view(v@).take(i as int),
        decreases v@.len() - i,
    {
        r.push((v[i].0, copy_bytes(&v[i].1)));
        i += 1;
        assert(dated_view(r@) =~= dated_view(v@).take(i as int));
    }
    assert(dated_view(r@) =~= dated_view(v@));
    r
}

impl Field {
    fn copy(&self) -> (r: Field)
        ensures
            r@ == self@,
    {
        match self {
            Field::U8(v) => Field::U8(*v),
            Field::U16(v) => Field::U16(*v),
            Field::U32(v) => Field::U32(*v),
            Field::U64(v) => Field::U64(*v),
            Field::Bool(v) => Field::Bool(*v),
            Field::Len(v) => Field::Len(*v),
            Field::Count(v) => Field::Count(*v),
            Field::Raw(v) => Field::Raw(copy_bytes(v)),
            Field::Bytes(v) => Field::Bytes(copy_bytes(v)),
            Field::Octets(v) => Field::Octets(copy_bytes(v)),
            Field::Text(v) => Field::Text(copy_text(v)),
            Field::Mac(v) => Field::Mac(*v),
            Field::Ip(v) => Field::Ip(*v),
            Field::OptU8(v) => Field::OptU8(*v),
            Field::OptU32(v) => Field::OptU32(*v),
            Field::OptU64(v) => Field::OptU64(*v),
            Field::OptTime(v) => Field::OptTime(*v),
            Field::OptSample(v) => Field::OptSample(*v),
            Field::OptBytes(v) => Field::OptBytes(
                match v {
                    Some(b) => Some(copy_bytes(b)),
                    None => None,
                },
            ),
            Field::OptText(v) => Field::OptText(
                match v {
                    Some(t) => Some(copy_text(t)),
                    None => None,
                },
            ),
            Field::OptMac(v) => Field::OptMac(*v),
            Field::OptIp(v) => Field::OptIp(*v),
            Field::Ips(v) => Field::Ips(copy_list(v)),
            Field::Frames(v) => Field::Frames(copy_frames(v)),
            Field::Dated(v) => Field::Dated(copy_dated(v)),
            Field::Pairs(v) => Field::Pairs(copy_list(v)),
            Field::OptChain(v) => Field::OptChain(
                match v {
                    Some(c) => Some((c.0, copy_list(&c.1), copy_list(&c.2))),
                    None => None,
                },
            ),
            Field::Packed(v) => Field::Packed(copy_bytes(v)),
            Field::Section(t) => Field::Section(*t),
            Field::End => Field::End,
        }
    }
}

impl Source for Cursor {
    open spec fn rest(&self) -> Seq<Token> {
        if self.at <= self.fields@.len() {
            tokens(self.fields@).skip(self.at as int)
        } else {
            Seq::empty()
        }
    }

    fn next(&mut self, k: Kind) -> (r: Result<Field, Fault>) {
        if self.at >= self.fields.len() {
            return Err(Fault::Missing);
        }
        let f: Field = self.fields[self.at].copy();
        assert(f@ == self.rest()[0]);
        if !f.is_kind(k) {
            return Err(Fault::Missing);
        }
        self.at += 1;
        assert(self.rest() =~= old(self).rest().skip(1));
        Ok(f)
    }
}

/// The first fields are of these kinds.
pub open spec fn fits(s: Seq<Token>, kinds: Seq<Kind>) -> bool {
    &&& s.len() >= kinds.len()
    &&& forall|i: int| 0 <= i < kinds.len() ==> (#[trigger] s[i]).is_kind(kinds[i])
}

/// Reads one row: a field of each kind.
pub fn read_row<S: Source>(src: &mut S, kinds: &[Kind]) -> (r: Result<Vec<Field>, Fault>)
    ensures
        match r {
            Ok(fs) => {
                &&& fits(old(src).rest(), kinds@)
                &&& tokens(fs@) == old(src).rest().take(kinds@.len() as int)
                &&& fs@.len() == kinds@.len()
                &&& forall|i: int|
                    0 <= i < fs@.len() ==> (#[trigger] fs@[i])@ == old(src).rest()[i]
                &&& final(src).rest() == old(src).rest().skip(kinds@.len() as int)
            },
            Err(e) => e == Fault::Missing && !fits(old(src).rest(), kinds@),
        },
{
    let ghost all = src.rest();
    let mut fs: Vec<Field> = Vec::new();
    let mut i: usize = 0;
    assert(all.skip(0) =~= all);
    while i < kinds.len()
        invariant
            i <= kinds@.len(),
            fs@.len() == i,
            i <= all.len(),
            all == old(src).rest(),
            tokens(fs@) == all.take(i as int),
            src.rest() == all.skip(i as int),
            forall|j: int| 0 <= j < i ==> (#[trigger] all[j]).is_kind(kinds@[j]),
        decreases kinds@.len() - i,
    {
        match src.next(kinds[i]) {
            Ok(f) => {
                assert(all.skip(i as int)[0] == all[i as int]);
                fs.push(f);
                i += 1;
                assert(tokens(fs@) =~= all.take(i as int));
                assert(all.skip(i as int) =~= all.skip(i - 1).skip(1));
            },
            Err(e) => {
                assert(all.skip(i as int).len() > 0 ==> all.skip(i as int)[0] == all[i as int]);
                return Err(e);
            },
        }
    }
    assert(tokens(fs@) =~= all.take(kinds@.len() as int));
    assert forall|i: int| 0 <= i < fs@.len() implies (#[trigger] fs@[i])@ == all[i] by {
        assert(tokens(fs@)[i] == all.take(kinds@.len() as int)[i]);
    }
    Ok(fs)
}

/// The first `n` rows are there, each with a field of each kind.
pub open spec fn rows_fit(s: Seq<Token>, kinds: Seq<Kind>, n: nat) -> bool
    decreases n,
{
    n == 0 || (fits(s, kinds) && rows_fit(s.skip(kinds.len() as int), kinds, (n - 1) as nat))
}

/// The first `n` rows of width `w`.
pub open spec fn cut(s: Seq<Token>, w: nat, n: nat) -> Seq<Seq<Token>>
    decreases n,
{
    if n == 0 {
        Seq::empty()
    } else {
        seq![s.take(w as int)] + cut(s.skip(w as int), w, (n - 1) as nat)
    }
}

/// What is left after `n` rows of width `w`.
pub open spec fn past(s: Seq<Token>, w: nat, n: nat) -> Seq<Token>
    decreases n,
{
    if n == 0 {
        s
    } else {
        past(s.skip(w as int), w, (n - 1) as nat)
    }
}

/// A table stands at the front: a count and as many rows.
pub open spec fn table_fits(s: Seq<Token>, kinds: Seq<Kind>) -> bool {
    s.len() > 0 && s[0] is Count && rows_fit(s.skip(1), kinds, s[0]->Count_0 as nat)
}

/// The rows of the table at the front.
pub open spec fn table_rows(s: Seq<Token>, kinds: Seq<Kind>) -> Seq<Seq<Token>> {
    cut(s.skip(1), kinds.len(), s[0]->Count_0 as nat)
}

/// What is left after the table at the front.
pub open spec fn after_table(s: Seq<Token>, kinds: Seq<Kind>) -> Seq<Token> {
    past(s.skip(1), kinds.len(), s[0]->Count_0 as nat)
}

pub open spec fn rows_view(rows: Seq<Vec<Field>>) -> Seq<Seq<Token>> {
    rows.map_values(|r: Vec<Field>| tokens(r@))
}

/// Reads `n` rows of the given kinds.
pub fn read_rows<S: Source>(src: &mut S, kinds: &[Kind], n: u64) -> (r: Result<
    Vec<Vec<Field>>,
    Fault,
>)
    ensures
        match r {
            Ok(rows) => {
                &&& rows_fit(old(src).rest(), kinds@, n as nat)
                &&& rows_view(rows@) == cut(old(src).rest(), kinds@.len(), n as nat)
                &&& final(src).rest() == past(old(src).rest(), kinds@.len(), n as nat)
                &&& rows@.len() == n
                &&& forall|i: int|
                    0 <= i < rows@.len() ==> fits(#[trigger] rows_view(rows@)[i], kinds@)
                        && rows_view(rows@)[i].len() == kinds@.len()
            },
            Err(e) => e == Fault::Missing && !rows_fit(old(src).rest(), kinds@, n as nat),
        },
{
    let ghost all = src.rest();
    let ghost w = kinds@.len();
    let mut rows: Vec<Vec<Field>> = Vec::new();
    let mut i: u64 = 0;
    assert(rows_view(rows@) =~= Seq::empty());
    assert(rows_view(rows@) + cut(all, w, n as nat) =~= cut(all, w, n as nat));
    while i < n
        invariant
            i <= n,
            w == kinds@.len(),
            all == old(src).rest(),
            rows@.len() == i,
            rows_view(rows@) + cut(src.rest(), w, (n - i) as nat) == cut(all, w, n as nat),
            past(src.rest(), w, (n - i) as nat) == past(all, w, n as nat),
            rows_fit(src.rest(), kinds@, (n - i) as nat) == rows_fit(all, kinds@, n as nat),
            forall|k: int|
                0 <= k < rows@.len() ==> fits(#[trigger] rows_view(rows@)[k], kinds@)
                    && rows_view(rows@)[k].len() == kinds@.len(),
        decreases n - i,
    {
        let ghost cur = src.rest();
        let ghost done = rows_view(rows@);
        match read_row(src, kinds) {
            Ok(row) => {
                let ghost t = tokens(row@);
                assert(t == cur.take(w as int));
                assert(fits(t, kinds@)) by {
                    assert forall|k: int| 0 <= k < kinds@.len() implies (#[trigger] t[k]).is_kind(
                        kinds@[k],
                    ) by {
                        assert(t[k] == cur[k]);
                    }
                }
                rows.push(row);
                i += 1;
                assert(rows_view(rows@) =~= done.push(t));
                assert(cut(cur, w, (n - i + 1) as nat) =~= seq![t] + cut(
                    src.rest(),
                    w,
                    (n - i) as nat,
                ));
                assert(rows_view(rows@) + cut(src.rest(), w, (n - i) as nat) =~= done + cut(
                    cur,
                    w,
                    (n - i + 1) as nat,
                ));
            },
            Err(e) => {
                assert(!rows_fit(cur, kinds@, (n - i) as nat));
                return Err(e);
            },
        }
    }
    assert(rows_view(rows@) + cut(src.rest(), w, 0) =~= rows_view(rows@));
    Ok(rows)
}

/// Reads a table: a count, each of whose rows takes at least `min` bytes, and as
/// many rows of the given kinds.
pub fn read_table<S: Source>(src: &mut S, kinds: &[Kind], min: u64) -> (r: Result<
    Vec<Vec<Field>>,
    Fault,
>)
    ensures
        match r {
            Ok(rows) => {
                &&& table_fits(old(src).rest(), kinds@)
                &&& rows_view(rows@) == table_rows(old(src).rest(), kinds@)
                &&& final(src).rest() == after_table(old(src).rest(), kinds@)
                &&& rows@.len() == old(src).rest()[0]->Count_0
                &&& forall|i: int|
                    0 <= i < rows@.len() ==> fits(#[trigger] rows_view(rows@)[i], kinds@)
                        && rows_view(rows@)[i].len() == kinds@.len()
            },
            Err(e) => e == Fault::Missing && !table_fits(old(src).rest(), kinds@),
        },
{
    let n: u64 = match src.next(Kind::Count(min)) {
        Ok(f) => f.count(),
        Err(e) => {
            return Err(e);
        },
    };
    read_rows(src, kinds, n)
}

/// The tokens of some rows, one row after another.
pub open spec fn flat(rows: Seq<Seq<Token>>) -> Seq<Token>
    decreases rows.len(),
{
    if rows.len() == 0 {
        Seq::empty()
    } else {
        rows[0] + flat(rows.skip(1))
    }
}

/// The tokens of a table.
pub open spec fn table_tokens(rows: Seq<Seq<Token>>) -> Seq<Token> {
    seq![Token::Count(rows.len() as u64)] + flat(rows)
}

pub proof fn lemma_flat_push(rows: Seq<Seq<Token>>, row: Seq<Token>)
    ensures
        flat(rows.push(row)) == flat(rows) + row,
    decreases rows.len(),
{
    if rows.len() == 0 {
        assert(flat(rows.push(row).skip(1)) =~= Seq::empty());
        assert(flat(rows.push(row)) =~= flat(rows) + row);
    } else {
        lemma_flat_push(rows.skip(1), row);
        assert(rows.push(row).skip(1) =~= rows.skip(1).push(row));
        assert(flat(rows.push(row)) =~= flat(rows) + row);
    }
}

pub proof fn lemma_flat_take(rows: Seq<Seq<Token>>, i: int)
    requires
        0 <= i < rows.len(),
    ensures
        flat(rows.take(i + 1)) == flat(rows.take(i)) + rows[i],
{
    lemma_flat_push(rows.take(i), rows[i]);
    assert(rows.take(i + 1) =~= rows.take(i).push(rows[i]));
}

pub proof fn lemma_rows_come_back(rows: Seq<Seq<Token>>, kinds: Seq<Kind>, t: Seq<Token>)
    requires
        forall|i: int|
            0 <= i < rows.len() ==> (#[trigger] rows[i]).len() == kinds.len() && fits(rows[i], kinds),
    ensures
        rows_fit(flat(rows) + t, kinds, rows.len()),
        cut(flat(rows) + t, kinds.len(), rows.len()) == rows,
        past(flat(rows) + t, kinds.len(), rows.len()) == t,
    decreases rows.len(),
{
    let w = kinds.len();
    let s = flat(rows) + t;
    if rows.len() == 0 {
        assert(s =~= t);
        assert(cut(s, w, 0) =~= rows);
    } else {
        let rest = rows.skip(1);
        assert forall|i: int| 0 <= i < rest.len() implies (#[trigger] rest[i]).len() == kinds.len()
            && fits(rest[i], kinds) by {
            assert(rest[i] == rows[i + 1]);
        }
        lemma_rows_come_back(rest, kinds, t);
        assert(rows[0].len() == w && fits(rows[0], kinds));
        assert(s.take(w as int) =~= rows[0]);
        assert(s.skip(w as int) =~= flat(rest) + t);
        assert(fits(s, kinds)) by {
            assert forall|k: int| 0 <= k < kinds.len() implies (#[trigger] s[k]).is_kind(kinds[k]) by {
                assert(s[k] == rows[0][k]);
            }
        }
        assert(cut(s, w, rows.len()) =~= rows);
    }
}

/// A table that was written is read back, whatever follows it.
pub proof fn law_table_comes_back(rows: Seq<Seq<Token>>, kinds: Seq<Kind>, t: Seq<Token>)
    requires
        rows.len() <= u64::MAX,
        forall|i: int|
            0 <= i < rows.len() ==> (#[trigger] rows[i]).len() == kinds.len() && fits(rows[i], kinds),
    ensures
        table_fits(table_tokens(rows) + t, kinds),
        table_rows(table_tokens(rows) + t, kinds) == rows,
        after_table(table_tokens(rows) + t, kinds) == t,
{
    let s = table_tokens(rows) + t;
    lemma_rows_come_back(rows, kinds, t);
    assert(s.skip(1) =~= flat(rows) + t);
    assert(s[0] == Token::Count(rows.len() as u64));
}

/// Joining is associative.
pub proof fn lemma_join(a: Seq<Token>, b: Seq<Token>, c: Seq<Token>)
    ensures
        (a + b) + c == a + (b + c),
{
    assert((a + b) + c =~= a + (b + c));
}

/// A row that was written is read back, whatever follows it.
pub proof fn law_row_comes_back(row: Seq<Token>, kinds: Seq<Kind>, t: Seq<Token>)
    requires
        row.len() == kinds.len(),
        fits(row, kinds),
    ensures
        fits(row + t, kinds),
        (row + t).take(kinds.len() as int) == row,
        (row + t).skip(kinds.len() as int) == t,
{
    assert((row + t).take(kinds.len() as int) =~= row);
    assert((row + t).skip(kinds.len() as int) =~= t);
    assert forall|k: int| 0 <= k < kinds.len() implies (#[trigger] (row + t)[k]).is_kind(kinds[k]) by {
        assert((row + t)[k] == row[k]);
    }
}

/// Appends the fields of a row.
pub fn append(out: &mut Vec<Field>, row: Vec<Field>)
    ensures
        tokens(final(out)@) == tokens(old(out)@) + tokens(row@),
{
    let mut more: Vec<Field> = row;
    let ghost added = more@;
    out.append(&mut more);
    assert(tokens(out@) =~= tokens(old(out)@) + tokens(added));
}

/// Appends a field.
pub fn add_field(out: &mut Vec<Field>, f: Field)
    ensures
        tokens(final(out)@) == tokens(old(out)@).push(f@),
{
    out.push(f);
    assert(tokens(out@) =~= tokens(old(out)@).push(f@));
}

impl Field {
    pub fn count(&self) -> (r: u64)
        requires
            self@ is Count,
        ensures
            self@ == Token::Count(r),
    {
        match self {
            Field::Count(v) => *v,
            _ => 0,
        }
    }

    pub fn u8(&self) -> (r: u8)
        requires
            self@ is U8,
        ensures
            self@ == Token::U8(r),
    {
        match self {
            Field::U8(v) => *v,
            _ => 0,
        }
    }

    pub fn u16(&self) -> (r: u16)
        requires
            self@ is U16,
        ensures
            self@ == Token::U16(r),
    {
        match self {
            Field::U16(v) => *v,
            _ => 0,
        }
    }

    pub fn u32(&self) -> (r: u32)
        requires
            self@ is U32,
        ensures
            self@ == Token::U32(r),
    {
        match self {
            Field::U32(v) => *v,
            _ => 0,
        }
    }

    pub fn u64(&self) -> (r: u64)
        requires
            self@ is U64,
        ensures
            self@ == Token::U64(r),
    {
        match self {
            Field::U64(v) => *v,
            _ => 0,
        }
    }

    pub fn bool(&self) -> (r: bool)
        requires
            self@ is Bool,
        ensures
            self@ == Token::Bool(r),
    {
        match self {
            Field::Bool(v) => *v,
            _ => false,
        }
    }

    pub fn len(&self) -> (r: u64)
        requires
            self@ is Len,
        ensures
            self@ == Token::Len(r),
    {
        match self {
            Field::Len(v) => *v,
            _ => 0,
        }
    }

    pub fn mac(&self) -> (r: Mac)
        requires
            self@ is Mac,
        ensures
            self@ == Token::Mac(r),
    {
        match self {
            Field::Mac(v) => *v,
            _ => Mac::zero(),
        }
    }

    pub fn ip(&self) -> (r: Ipv4Addr)
        requires
            self@ is Ip,
        ensures
            self@ == Token::Ip(r),
    {
        match self {
            Field::Ip(v) => *v,
            _ => Ipv4Addr::unspecified(),
        }
    }

    pub fn opt_u8(&self) -> (r: Option<u8>)
        requires
            self@ is OptU8,
        ensures
            self@ == Token::OptU8(r),
    {
        match self {
            Field::OptU8(v) => *v,
            _ => None,
        }
    }

    pub fn opt_u32(&self) -> (r: Option<u32>)
        requires
            self@ is OptU32,
        ensures
            self@ == Token::OptU32(r),
    {
        match self {
            Field::OptU32(v) => *v,
            _ => None,
        }
    }

    pub fn opt_u64(&self) -> (r: Option<u64>)
        requires
            self@ is OptU64,
        ensures
            self@ == Token::OptU64(r),
    {
        match self {
            Field::OptU64(v) => *v,
            _ => None,
        }
    }

    pub fn opt_time(&self) -> (r: Option<u64>)
        requires
            self@ is OptTime,
        ensures
            self@ == Token::OptTime(r),
    {
        match self {
            Field::OptTime(v) => *v,
            _ => None,
        }
    }

    pub fn opt_sample(&self) -> (r: Option<(u32, u64)>)
        requires
            self@ is OptSample,
        ensures
            self@ == Token::OptSample(r),
    {
        match self {
            Field::OptSample(v) => *v,
            _ => None,
        }
    }

    pub fn opt_mac(&self) -> (r: Option<Mac>)
        requires
            self@ is OptMac,
        ensures
            self@ == Token::OptMac(r),
    {
        match self {
            Field::OptMac(v) => *v,
            _ => None,
        }
    }

    pub fn opt_ip(&self) -> (r: Option<Ipv4Addr>)
        requires
            self@ is OptIp,
        ensures
            self@ == Token::OptIp(r),
    {
        match self {
            Field::OptIp(v) => *v,
            _ => None,
        }
    }

    pub fn raw(&self) -> (r: Vec<u8>)
        requires
            self@ is Raw,
        ensures
            self@ == Token::Raw(r@),
    {
        match self {
            Field::Raw(v) => copy_bytes(v),
            _ => Vec::new(),
        }
    }

    pub fn bytes(&self) -> (r: Vec<u8>)
        requires
            self@ is Bytes,
        ensures
            self@ == Token::Bytes(r@),
    {
        match self {
            Field::Bytes(v) => copy_bytes(v),
            _ => Vec::new(),
        }
    }

    pub fn octets(&self) -> (r: Vec<u8>)
        requires
            self@ is Octets,
        ensures
            self@ == Token::Octets(r@),
    {
        match self {
            Field::Octets(v) => copy_bytes(v),
            _ => Vec::new(),
        }
    }

    pub fn packed(&self) -> (r: Vec<u8>)
        requires
            self@ is Packed,
        ensures
            self@ == Token::Packed(r@),
    {
        match self {
            Field::Packed(v) => copy_bytes(v),
            _ => Vec::new(),
        }
    }

    pub fn text(&self) -> (r: String)
        requires
            self@ is Text,
        ensures
            self@ == Token::Text(r@),
    {
        match self {
            Field::Text(v) => copy_text(v),
            _ => String::new(),
        }
    }

    pub fn opt_text(&self) -> (r: Option<String>)
        requires
            self@ is OptText,
        ensures
            self@ == Token::OptText(opt_text(r)),
    {
        match self {
            Field::OptText(Some(v)) => Some(copy_text(v)),
            _ => None,
        }
    }

    pub fn opt_bytes(&self) -> (r: Option<Vec<u8>>)
        requires
            self@ is OptBytes,
        ensures
            self@ == Token::OptBytes(
                match r {
                    Some(b) => Some(b@),
                    None => None,
                },
            ),
    {
        match self {
            Field::OptBytes(Some(v)) => Some(copy_bytes(v)),
            _ => None,
        }
    }

    pub fn ips(&self) -> (r: Vec<Ipv4Addr>)
        requires
            self@ is Ips,
        ensures
            self@ == Token::Ips(r@),
    {
        match self {
            Field::Ips(v) => copy_list(v),
            _ => Vec::new(),
        }
    }

    pub fn frames(&self) -> (r: Vec<Vec<u8>>)
        requires
            self@ is Frames,
        ensures
            self@ == Token::Frames(frames_view(r@)),
    {
        match self {
            Field::Frames(v) => copy_frames(v),
            _ => Vec::new(),
        }
    }

    pub fn dated(&self) -> (r: Vec<(u64, Vec<u8>)>)
        requires
            self@ is Dated,
        ensures
            self@ == Token::Dated(dated_view(r@)),
    {
        match self {
            Field::Dated(v) => copy_dated(v),
            _ => Vec::new(),
        }
    }

    pub fn pairs(&self) -> (r: Vec<(u32, u32)>)
        requires
            self@ is Pairs,
        ensures
            self@ == Token::Pairs(r@),
    {
        match self {
            Field::Pairs(v) => copy_list(v),
            _ => Vec::new(),
        }
    }

    pub fn opt_chain(&self) -> (r: Option<(u16, Vec<(u64, u32)>, Vec<(u64, u32)>)>)
        requires
            self@ is OptChain,
        ensures
            self@ == Token::OptChain(
                match r {
                    Some(c) => Some((c.0, c.1@, c.2@)),
                    None => None,
                },
            ),
    {
        match self {
            Field::OptChain(Some(c)) => Some((c.0, copy_list(&c.1), copy_list(&c.2))),
            _ => None,
        }
    }
}

/// Copy of an optional text.
pub fn copy_opt_text(t: &Option<String>) -> (r: Option<String>)
    ensures
        opt_text(r) == opt_text(*t),
{
    match t {
        Some(s) => Some(copy_text(s)),
        None => None,
    }
}

} // verus!
