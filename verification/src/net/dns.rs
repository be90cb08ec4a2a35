//! DNS messages: what is needed to log questions and answers and to
//! answer from the sinkhole. Only class IN; of the records only A is extracted.
use vstd::prelude::*;
use crate::bytes::{be16, be16_at, be16_bytes, be32, be32_at, be32_bytes, push_be16, push_be32, push_bytes, to_vec, zeros, push_zeros};
use crate::net::addr::{push_ip, Ipv4Addr};
use crate::text::{decimal, padded, push_decimal_padded};

verus! {

pub const TYPE_A: u16 = 1;
pub const TYPE_CNAME: u16 = 5;
pub const TYPE_AAAA: u16 = 28;
pub const CLASS_IN: u16 = 1;

pub const RCODE_NOERROR: u8 = 0;
pub const RCODE_SERVFAIL: u8 = 2;
pub const RCODE_NXDOMAIN: u8 = 3;
pub const RCODE_NOTIMP: u8 = 4;

pub const HEADER_LEN: usize = 12;
/// Bound on the compression pointers that are followed: no loops.
pub const MAX_JUMPS: u8 = 16;
/// Bound on the text of a name.
pub const MAX_NAME: usize = 1024;

// ---- Names ------------------------------------------------------------------

pub open spec fn lower(b: u8) -> u8 {
    if 65 <= b <= 90 { (b + 32) as u8 } else { b }
}

/// Printable, and neither the dot nor the backslash.
pub open spec fn plain(b: u8) -> bool {
    33 <= b <= 126 && b != 46 && b != 92
}

/// How a byte of a label is written: in lower case, and as `\DDD` if it cannot
/// be printed.
pub open spec fn byte_text(b: u8) -> Seq<char> {
    if plain(lower(b)) {
        seq![lower(b) as char]
    } else {
        seq!['\\'] + padded(decimal(lower(b) as nat), '0', 3)
    }
}

pub open spec fn label_text(l: Seq<u8>) -> Seq<char>
    decreases l.len(),
{
    if l.len() == 0 { Seq::empty() } else { label_text(l.drop_last()) + byte_text(l.last()) }
}

/// A name with one more label.
pub open spec fn extended(name: Seq<char>, label: Seq<u8>) -> Seq<char> {
    (if name.len() == 0 { name } else { name.push('.') }) + label_text(label)
}

/// The text of the name at `at`, after `name` and `jumps` pointers. `None` if
/// it runs past the message, uses an unknown kind of label, follows too many
/// pointers or is too long.
pub open spec fn name_at(msg: Seq<u8>, at: int, name: Seq<char>, jumps: int) -> Option<Seq<char>>
    decreases MAX_JUMPS - jumps, msg.len() - at,
{
    if at < 0 || at >= msg.len() || jumps < 0 || jumps > MAX_JUMPS {
        None
    } else if msg[at] == 0 {
        Some(name)
    } else if msg[at] < 64 {
        let next = at + 1 + msg[at];
        if next > msg.len() {
            None
        } else {
            let longer = extended(name, msg.subrange(at + 1, next));
            if longer.len() > MAX_NAME {
                None
            } else {
                name_at(msg, next, longer, jumps)
            }
        }
    } else if msg[at] >= 192 && at + 2 <= msg.len() && jumps < MAX_JUMPS {
        name_at(msg, be16_at(msg, at) as int % 0x4000, name, jumps + 1)
    } else {
        None
    }
}

/// Where the name at `at` ends in the message: after its terminator, or after
/// its first pointer.
pub open spec fn name_end(msg: Seq<u8>, at: int) -> int
    decreases msg.len() - at,
{
    if at < 0 || at >= msg.len() || msg[at] == 0 {
        at + 1
    } else if msg[at] < 64 {
        if at + 1 + msg[at] <= msg.len() { name_end(msg, at + 1 + msg[at]) } else { at + 1 }
    } else {
        at + 2
    }
}

/// The name at `at`.
pub open spec fn name_in(msg: Seq<u8>, at: int) -> Option<Seq<char>> {
    name_at(msg, at, Seq::empty(), 0)
}

proof fn lemma_byte_text_len(b: u8)
    ensures
        1 <= byte_text(b).len() <= 4,
{
    let n = lower(b) as nat;
    reveal_with_fuel(decimal, 4);
    assert(n / 10 / 10 < 10);
    assert(decimal(n).len() <= 3);
}

proof fn lemma_label_text_len(l: Seq<u8>)
    ensures
        l.len() <= label_text(l).len() <= 4 * l.len(),
    decreases l.len(),
{
    if l.len() > 0 {
        lemma_label_text_len(l.drop_last());
        lemma_byte_text_len(l.last());
    }
}

/// Appends the text of a label; returns how many characters it has.
fn push_label(name: &mut String, msg: &[u8], from: usize, to: usize) -> (n: usize)
    requires
        from <= to <= msg@.len(),
        to - from <= 63,
    ensures
        final(name)@ == old(name)@ + label_text(msg@.subrange(from as int, to as int)),
        n == label_text(msg@.subrange(from as int, to as int)).len(),
        n <= 252,
{
    let mut i: usize = from;
    let mut n: usize = 0;
    assert(msg@.subrange(from as int, from as int) =~= Seq::empty());
    assert(name@ =~= old(name)@ + label_text(msg@.subrange(from as int, i as int)));
    while i < to
        invariant
            from <= i <= to <= msg@.len(),
            to - from <= 63,
            n <= 4 * (i - from),
            n == label_text(msg@.subrange(from as int, i as int)).len(),
            name@ == old(name)@ + label_text(msg@.subrange(from as int, i as int)),
        decreases to - i,
    {
        let b: u8 = msg[i];
        let c: u8 = if 65 <= b && b <= 90 { b + 32 } else { b };
        proof {
            lemma_byte_text_len(b);
            let l = msg@.subrange(from as int, i + 1);
            assert(l.drop_last() =~= msg@.subrange(from as int, i as int));
            assert(l.last() == b);
        }
        if 33 <= c && c <= 126 && c != 46 && c != 92 {
            name.push(c as char);
            n += 1;
        } else {
            name.push('\\');
            push_decimal_padded(name, c as u64, '0', 3);
            proof {
                reveal_with_fuel(decimal, 4);
                assert(padded(decimal(c as nat), '0', 3).len() == 3);
            }
            n += 4;
        }
        i += 1;
        assert(name@ =~= old(name)@ + label_text(msg@.subrange(from as int, i as int)));
    }
    n
}

/// Reads the name at `start`: its text in lower case, with dots and without the
/// final one ("" for the root), and where it ends in the message.
fn read_name(msg: &[u8], start: usize) -> (r: Option<(String, usize)>)
    ensures
        match r {
            Some((name, after)) => name_in(msg@, start as int) == Some(name@) && after == name_end(
                msg@,
                start as int,
            ) && start < after <= msg@.len(),
            None => name_in(msg@, start as int) is None,
        },
{
    let n: usize = msg.len();
    let mut name: String = String::new();
    let mut count: usize = 0;
    let mut end: usize = 0;
    let mut jumps: u8 = 0;
    let mut at: usize = start;
    assert(name@ =~= Seq::<char>::empty());
    while at < n
        invariant
            n == msg@.len(),
            count == name@.len() <= MAX_NAME,
            jumps <= MAX_JUMPS,
            name_at(msg@, at as int, name@, jumps as int) == name_in(msg@, start as int),
            jumps == 0 ==> start <= at && name_end(msg@, at as int) == name_end(
                msg@,
                start as int,
            ),
            jumps > 0 ==> end == name_end(msg@, start as int) && start < end <= n,
        decreases MAX_JUMPS - jumps, n - at,
    {
        let len: u8 = msg[at];
        if len == 0 {
            let after: usize = if jumps > 0 { end } else { at + 1 };
            return Some((name, after));
        }
        if len < 64 {
            let l: usize = len as usize;
            if n - at - 1 < l {
                return None;
            }
            let ghost old_name = name@;
            if count > 0 {
                name.push('.');
                count += 1;
            }
            let added: usize = push_label(&mut name, msg, at + 1, at + 1 + l);
            count += added;
            assert(name@ == extended(old_name, msg@.subrange(at + 1, at + 1 + l)));
            if count > MAX_NAME {
                return None;
            }
            at = at + 1 + l;
        } else if len >= 192 {
            if n - at < 2 {
                return None;
            }
            let ptr: usize = (be16(msg, at) % 0x4000) as usize;
            if jumps == 0 {
                end = at + 2;
            }
            if jumps >= MAX_JUMPS {
                return None;
            }
            jumps += 1;
            at = ptr;
        } else {
            return None;
        }
    }
    None
}

// ---- Questions --------------------------------------------------------------

/// A DNS question (the first of the message).
#[derive(Clone, Debug, PartialEq, Eq)]
pub struct Query {
    pub id: u16,
    /// The RD bit of the request.
    pub recursion_desired: bool,
    pub opcode: u8,
    pub name: String,
    pub qtype: u16,
    pub qclass: u16,
    /// Bytes of the question section (name, type, class), to copy into the
    /// answer.
    pub question: Vec<u8>,
}

/// What a [`Query`] says.
#[verifier::ext_equal]
pub struct Question {
    pub id: u16,
    pub recursion_desired: bool,
    pub opcode: u8,
    pub name: Seq<char>,
    pub qtype: u16,
    pub qclass: u16,
    pub question: Seq<u8>,
}

impl View for Query {
    type V = Question;

    open spec fn view(&self) -> Question {
        Question {
            id: self.id,
            recursion_desired: self.recursion_desired,
            opcode: self.opcode,
            name: self.name@,
            qtype: self.qtype,
            qclass: self.qclass,
            question: self.question@,
        }
    }
}

/// The message is an answer (QR = 1).
pub open spec fn is_answer(msg: Seq<u8>) -> bool {
    be16_at(msg, 2) >= 0x8000
}

/// The question in `msg`, if it is one (QR = 0, at least one question).
pub open spec fn question_in(msg: Seq<u8>) -> Option<Question> {
    let after = name_end(msg, 12);
    if msg.len() < HEADER_LEN || is_answer(msg) || be16_at(msg, 4) == 0 {
        None
    } else {
        match name_in(msg, 12) {
            None => None,
            Some(name) => if after + 4 > msg.len() {
                None
            } else {
                Some(
                    Question {
                        id: be16_at(msg, 0),
                        recursion_desired: be16_at(msg, 2) / 0x100 % 2 == 1,
                        opcode: (be16_at(msg, 2) / 0x800 % 16) as u8,
                        name,
                        qtype: be16_at(msg, after),
                        qclass: be16_at(msg, after + 2),
                        question: msg.subrange(12, after + 4),
                    },
                )
            },
        }
    }
}

/// Parses a question (QR = 0, at least one question).
pub fn parse_query(msg: &[u8]) -> (r: Option<Query>)
    ensures
        match r {
            Some(q) => question_in(msg@) == Some(q@),
            None => question_in(msg@) is None,
        },
{
    let n: usize = msg.len();
    if n < HEADER_LEN {
        return None;
    }
    let flags: u16 = be16(msg, 2);
    if flags >= 0x8000 || be16(msg, 4) == 0 {
        return None;
    }
    match read_name(msg, HEADER_LEN) {
        None => None,
        Some((name, after)) => {
            if n - after < 4 {
                return None;
            }
            let question: Vec<u8> = to_vec(
                vstd::slice::slice_subrange(msg, HEADER_LEN, after + 4),
            );
            Some(
                Query {
                    id: be16(msg, 0),
                    recursion_desired: flags / 0x100 % 2 == 1,
                    opcode: (flags / 0x800 % 16) as u8,
                    name,
                    qtype: be16(msg, after),
                    qclass: be16(msg, after + 2),
                    question,
                },
            )
        },
    }
}

// ---- Answers ----------------------------------------------------------------

/// A parsed DNS answer.
#[derive(Clone, Debug, PartialEq, Eq)]
pub struct Response {
    pub id: u16,
    pub rcode: u8,
    pub name: String,
    pub qtype: u16,
    /// Addresses of the A records of the answer section, in order.
    pub addrs: Vec<Ipv4Addr>,
}

/// What a [`Response`] says.
#[verifier::ext_equal]
pub struct Answered {
    pub id: u16,
    pub rcode: u8,
    pub name: Seq<char>,
    pub qtype: u16,
    pub addrs: Seq<Ipv4Addr>,
}

impl View for Response {
    type V = Answered;

    open spec fn view(&self) -> Answered {
        Answered {
            id: self.id,
            rcode: self.rcode,
            name: self.name@,
            qtype: self.qtype,
            addrs: self.addrs@,
        }
    }
}

/// Where `count` questions from `at` on end; `None` if one cannot be read.
pub open spec fn questions_end(msg: Seq<u8>, at: int, count: nat) -> Option<int>
    decreases count,
{
    if count == 0 {
        Some(at)
    } else if name_in(msg, at) is None {
        None
    } else {
        questions_end(msg, name_end(msg, at) + 4, (count - 1) as nat)
    }
}

/// Length of the data of the record whose name ends at `after`.
pub open spec fn rdata_len(msg: Seq<u8>, after: int) -> int {
    be16_at(msg, after + 8) as int
}

/// A record at `at` can be read whole.
pub open spec fn is_record(msg: Seq<u8>, at: int) -> bool {
    let after = name_end(msg, at);
    &&& name_in(msg, at) is Some
    &&& after + 10 <= msg.len()
    &&& after + 10 + rdata_len(msg, after) <= msg.len()
}

/// The address in a record, if it is an A record of class IN.
pub open spec fn record_addr(msg: Seq<u8>, after: int) -> Seq<Ipv4Addr> {
    if be16_at(msg, after) == TYPE_A && be16_at(msg, after + 2) == CLASS_IN && rdata_len(msg, after)
        == 4 {
        seq![Ipv4Addr { bits: be32_at(msg, after + 10) }]
    } else {
        Seq::empty()
    }
}

/// The addresses in `count` records from `at` on; `None` if one cannot be read.
pub open spec fn addrs_from(msg: Seq<u8>, at: int, count: nat) -> Option<Seq<Ipv4Addr>>
    decreases count,
{
    let after = name_end(msg, at);
    if count == 0 {
        Some(Seq::empty())
    } else if !is_record(msg, at) {
        None
    } else {
        match addrs_from(msg, after + 10 + rdata_len(msg, after), (count - 1) as nat) {
            Some(rest) => Some(record_addr(msg, after) + rest),
            None => None,
        }
    }
}

/// The answer in `msg`, if it is one (QR = 1).
pub open spec fn answer_in(msg: Seq<u8>) -> Option<Answered> {
    if msg.len() < HEADER_LEN || !is_answer(msg) {
        None
    } else {
        let qd = be16_at(msg, 4) as nat;
        let after = name_end(msg, 12);
        match questions_end(msg, 12, qd) {
            None => None,
            Some(at) => if qd > 0 && after + 2 > msg.len() {
                None
            } else {
                match addrs_from(msg, at, be16_at(msg, 6) as nat) {
                    None => None,
                    Some(addrs) => Some(
                        Answered {
                            id: be16_at(msg, 0),
                            rcode: (be16_at(msg, 2) % 16) as u8,
                            name: if qd > 0 {
                                name_in(msg, 12)->0
                            } else {
                                Seq::empty()
                            },
                            qtype: if qd > 0 {
                                be16_at(msg, after)
                            } else {
                                0
                            },
                            addrs,
                        },
                    ),
                }
            },
        }
    }
}

/// Skips `count` questions.
fn skip_questions(msg: &[u8], start: usize, count: u16) -> (r: Option<usize>)
    requires
        start <= msg@.len() + 4,
        msg@.len() + 4 <= usize::MAX,
    ensures
        match r {
            Some(at) => questions_end(msg@, start as int, count as nat) == Some(at as int),
            None => questions_end(msg@, start as int, count as nat) is None,
        },
        r matches Some(at) ==> at <= msg@.len() + 4,
{
    let mut at: usize = start;
    let mut left: u16 = count;
    while left > 0
        invariant
            at <= msg@.len() + 4 <= usize::MAX,
            questions_end(msg@, at as int, left as nat) == questions_end(
                msg@,
                start as int,
                count as nat,
            ),
        decreases left,
    {
        match read_name(msg, at) {
            None => {
                return None;
            },
            Some((_, after)) => {
                at = after + 4;
                left -= 1;
            },
        }
    }
    Some(at)
}

fn read_addrs(msg: &[u8], start: usize, count: u16) -> (r: Option<Vec<Ipv4Addr>>)
    ensures
        match r {
            Some(v) => addrs_from(msg@, start as int, count as nat) == Some(v@),
            None => addrs_from(msg@, start as int, count as nat) is None,
        },
{
    let n: usize = msg.len();
    let mut v: Vec<Ipv4Addr> = Vec::new();
    let mut at: usize = start;
    let mut left: u16 = count;
    let ghost goal = addrs_from(msg@, start as int, count as nat);
    proof {
        if let Some(rest) = goal {
            assert(v@ + rest =~= rest);
        }
    }
    while left > 0
        invariant
            n == msg@.len(),
            goal == addrs_from(msg@, start as int, count as nat),
            goal == (match addrs_from(msg@, at as int, left as nat) {
                Some(rest) => Some(v@ + rest),
                None => None,
            }),
        decreases left,
    {
        let after: usize = match read_name(msg, at) {
            None => {
                return None;
            },
            Some((_, a)) => a,
        };
        if n - after < 10 {
            return None;
        }
        let rdlen: usize = be16(msg, after + 8) as usize;
        if n - after - 10 < rdlen {
            return None;
        }
        let ghost v0 = v@;
        if be16(msg, after) == TYPE_A && be16(msg, after + 2) == CLASS_IN && rdlen == 4 {
            v.push(Ipv4Addr { bits: be32(msg, after + 10) });
        }
        assert(v@ =~= v0 + record_addr(msg@, after as int));
        proof {
            if let Some(rest) = addrs_from(msg@, after + 10 + rdlen, (left - 1) as nat) {
                assert(v0 + (record_addr(msg@, after as int) + rest) =~= v@ + rest);
            }
        }
        at = after + 10 + rdlen;
        left -= 1;
    }
    assert(v@ + Seq::<Ipv4Addr>::empty() =~= v@);
    Some(v)
}

/// Parses an answer (QR = 1).
pub fn parse_response(msg: &[u8]) -> (r: Option<Response>)
    requires
        msg@.len() + 4 <= usize::MAX,
    ensures
        match r {
            Some(a) => answer_in(msg@) == Some(a@),
            None => answer_in(msg@) is None,
        },
{
    let n: usize = msg.len();
    if n < HEADER_LEN {
        return None;
    }
    let flags: u16 = be16(msg, 2);
    if flags < 0x8000 {
        return None;
    }
    let qd: u16 = be16(msg, 4);
    let an: u16 = be16(msg, 6);
    let at: usize = match skip_questions(msg, HEADER_LEN, qd) {
        Some(at) => at,
        None => {
            return None;
        },
    };
    let (name, qtype): (String, u16) = if qd > 0 {
        match read_name(msg, HEADER_LEN) {
            None => {
                return None;
            },
            Some((name, after)) => {
                if n - after < 2 {
                    return None;
                }
                (name, be16(msg, after))
            },
        }
    } else {
        let none: String = String::new();
        assert(none@ =~= Seq::<char>::empty());
        (none, 0)
    };
    match read_addrs(msg, at, an) {
        None => None,
        Some(addrs) => Some(
            Response { id: be16(msg, 0), rcode: (flags % 16) as u8, name, qtype, addrs },
        ),
    }
}

// ---- Building ---------------------------------------------------------------

/// QR = 1, the opcode and RD of the question, AA = 1, RA = 1.
pub open spec fn answer_flags(q: Question, rcode: u8) -> u16 {
    (0x8000 + (q.opcode % 16) * 0x800 + 0x400 + (if q.recursion_desired { 0x100int } else { 0 })
        + 0x80 + rcode % 16) as u16
}

/// An A record whose name is a pointer to the question.
pub open spec fn a_record(a: Ipv4Addr, ttl: u32) -> Seq<u8> {
    be16_bytes(0xc00c) + be16_bytes(TYPE_A) + be16_bytes(CLASS_IN) + be32_bytes(ttl) + be16_bytes(4)
        + a.bytes()
}

pub open spec fn a_records(addrs: Seq<Ipv4Addr>, ttl: u32) -> Seq<u8>
    decreases addrs.len(),
{
    if addrs.len() == 0 {
        Seq::empty()
    } else {
        a_records(addrs.drop_last(), ttl) + a_record(addrs.last(), ttl)
    }
}

/// The answer to a question.
pub open spec fn response(q: Question, rcode: u8, addrs: Seq<Ipv4Addr>, ttl: u32) -> Seq<u8> {
    be16_bytes(q.id) + be16_bytes(answer_flags(q, rcode)) + be16_bytes(1) + be16_bytes(
        (addrs.len() % 0x1_0000) as u16,
    ) + zeros(4) + q.question + a_records(addrs, ttl)
}

/// Builds the answer to `q`: A records for `addrs` (with TTL `ttl`) and the code
/// `rcode`. The name in the records is a pointer to the question.
pub fn build_response(q: &Query, rcode: u8, addrs: &[Ipv4Addr], ttl: u32) -> (r: Vec<u8>)
    ensures
        r@ == response(q@, rcode, addrs@, ttl),
{
    let mut m: Vec<u8> = Vec::new();
    push_be16(&mut m, q.id);
    assert(m@ =~= be16_bytes(q.id));
    let rd: u16 = if q.recursion_desired { 0x100 } else { 0 };
    let flags: u16 = 0x8000 + (q.opcode % 16) as u16 * 0x800 + 0x400 + rd + 0x80 + (rcode
        % 16) as u16;
    push_be16(&mut m, flags);
    push_be16(&mut m, 1);
    push_be16(&mut m, (addrs.len() % 0x1_0000) as u16);
    push_zeros(&mut m, 4);
    push_bytes(&mut m, q.question.as_slice());
    let ghost head = m@;
    let mut i: usize = 0;
    assert(addrs@.take(0) =~= Seq::empty());
    assert(m@ =~= head + a_records(addrs@.take(0), ttl));
    while i < addrs.len()
        invariant
            i <= addrs@.len(),
            m@ == head + a_records(addrs@.take(i as int), ttl),
        decreases addrs@.len() - i,
    {
        let ghost m0 = m@;
        push_be16(&mut m, 0xc00c);
        push_be16(&mut m, TYPE_A);
        push_be16(&mut m, CLASS_IN);
        push_be32(&mut m, ttl);
        push_be16(&mut m, 4);
        push_ip(&mut m, addrs[i]);
        assert(m@ =~= m0 + a_record(addrs@[i as int], ttl));
        assert(addrs@.take(i + 1).drop_last() =~= addrs@.take(i as int));
        i += 1;
        assert(m@ =~= head + a_records(addrs@.take(i as int), ttl));
    }
    assert(addrs@.take(i as int) =~= addrs@);
    m
}

/// Where the first dot is, or the length.
pub open spec fn dot(b: Seq<u8>) -> int
    decreases b.len(),
{
    if b.len() == 0 || b[0] == 46 { 0 } else { 1 + dot(b.skip(1)) }
}

/// A label with its length in front; an empty one leaves nothing.
pub open spec fn label_bytes(l: Seq<u8>) -> Seq<u8> {
    if l.len() == 0 { Seq::empty() } else { seq![(l.len() % 256) as u8] + l }
}

/// The labels between the dots of `b`, encoded.
pub open spec fn name_bytes(b: Seq<u8>) -> Seq<u8>
    decreases b.len(),
{
    let i = dot(b);
    if i < 0 || i >= b.len() {
        label_bytes(b)
    } else {
        label_bytes(b.take(i)) + name_bytes(b.skip(i + 1))
    }
}

/// A question for `name`.
pub open spec fn query(id: u16, name: Seq<u8>, qtype: u16) -> Seq<u8> {
    be16_bytes(id) + be16_bytes(0x0100) + be16_bytes(1) + zeros(6) + name_bytes(name) + seq![0u8]
        + be16_bytes(qtype) + be16_bytes(CLASS_IN)
}

proof fn lemma_dot(b: Seq<u8>)
    ensures
        0 <= dot(b) <= b.len(),
        dot(b) < b.len() ==> b[dot(b)] == 46,
        forall|k: int| 0 <= k < dot(b) ==> b[k] != 46,
    decreases b.len(),
{
    if b.len() > 0 && b[0] != 46 {
        lemma_dot(b.skip(1));
        assert forall|k: int| 0 <= k < dot(b) implies b[k] != 46 by {
            if k > 0 {
                assert(b.skip(1)[k - 1] == b[k]);
            }
        }
    }
}

proof fn lemma_dot_at(b: Seq<u8>, i: int)
    requires
        0 <= i <= b.len(),
        i < b.len() ==> b[i] == 46,
        forall|k: int| 0 <= k < i ==> b[k] != 46,
    ensures
        dot(b) == i,
    decreases b.len(),
{
    if i > 0 {
        assert forall|k: int| 0 <= k < i - 1 implies b.skip(1)[k] != 46 by {
            assert(b.skip(1)[k] == b[k + 1]);
        }
        lemma_dot_at(b.skip(1), i - 1);
    }
}

/// Builds a question.
pub fn build_query(id: u16, name: &str, qtype: u16) -> (r: Vec<u8>)
    ensures
        r@ == query(id, vstd::utf8::encode_utf8(name@), qtype),
{
    let mut m: Vec<u8> = Vec::new();
    push_be16(&mut m, id);
    assert(m@ =~= be16_bytes(id));
    push_be16(&mut m, 0x0100);
    push_be16(&mut m, 1);
    push_zeros(&mut m, 6);
    let b: &[u8] = name.as_bytes();
    let n: usize = b.len();
    let ghost head = m@;
    let mut from: usize = 0;
    let mut i: usize = 0;
    assert(b@.skip(0) =~= b@);
    assert(head + name_bytes(b@) == m@ + name_bytes(b@.skip(0)));
    while i < n
        invariant
            from <= i <= n == b@.len(),
            forall|k: int| from <= k < i ==> b@[k] != 46,
            head + name_bytes(b@) == m@ + name_bytes(b@.skip(from as int)),
        decreases n - i,
    {
        if b[i] == 46 {
            let ghost rest = b@.skip(from as int);
            let ghost m0 = m@;
            proof {
                assert forall|k: int| 0 <= k < i - from implies rest[k] != 46 by {
                    assert(rest[k] == b@[from + k]);
                }
                assert(rest[i - from] == b@[i as int]);
                lemma_dot_at(rest, i - from);
            }
            if i > from {
                m.push(((i - from) % 256) as u8);
                push_bytes(&mut m, vstd::slice::slice_subrange(b, from, i));
            }
            assert(rest.take(i - from) =~= b@.subrange(from as int, i as int));
            assert(m@ =~= m0 + label_bytes(rest.take(i - from)));
            assert(rest.skip(i - from + 1) =~= b@.skip(i + 1));
            assert(m0 + name_bytes(rest) =~= m@ + name_bytes(b@.skip(i + 1)));
            from = i + 1;
        }
        i += 1;
    }
    let ghost rest = b@.skip(from as int);
    let ghost m0 = m@;
    proof {
        assert forall|k: int| 0 <= k < n - from implies rest[k] != 46 by {
            assert(rest[k] == b@[from + k]);
        }
        lemma_dot_at(rest, n - from);
    }
    if n > from {
        m.push(((n - from) % 256) as u8);
        push_bytes(&mut m, vstd::slice::slice_subrange(b, from, n));
    }
    assert(rest =~= b@.subrange(from as int, n as int));
    assert(m@ =~= m0 + label_bytes(rest));
    assert(m@ == head + name_bytes(b@));
    m.push(0);
    push_be16(&mut m, qtype);
    push_be16(&mut m, CLASS_IN);
    assert(m@ =~= query(id, b@, qtype));
    m
}

// ---- Laws -------------------------------------------------------------------

/// The name at `at` is made of labels only, up to its terminator.
pub open spec fn direct(msg: Seq<u8>, at: int) -> bool
    decreases msg.len() - at,
{
    &&& 0 <= at < msg.len()
    &&& msg[at] != 0 ==> msg[at] < 64 && at + 1 + msg[at] <= msg.len() && direct(
        msg,
        at + 1 + msg[at],
    )
}

proof fn lemma_name_end_bounds(msg: Seq<u8>, at: int)
    requires
        direct(msg, at),
    ensures
        at < name_end(msg, at) <= msg.len(),
    decreases msg.len() - at,
{
    if msg[at] != 0 {
        lemma_name_end_bounds(msg, at + 1 + msg[at]);
    }
}

/// A name without pointers depends on its own bytes alone.
proof fn lemma_direct_name(a: Seq<u8>, b: Seq<u8>, at: int, name: Seq<char>)
    requires
        direct(a, at),
        name_end(a, at) <= b.len(),
        forall|k: int| at <= k < name_end(a, at) ==> a[k] == b[k],
    ensures
        direct(b, at),
        name_end(b, at) == name_end(a, at),
        name_at(b, at, name, 0) == name_at(a, at, name, 0),
    decreases a.len() - at,
{
    lemma_name_end_bounds(a, at);
    if a[at] != 0 {
        let next = at + 1 + a[at];
        lemma_name_end_bounds(a, next);
        let longer = extended(name, a.subrange(at + 1, next));
        assert(a.subrange(at + 1, next) =~= b.subrange(at + 1, next));
        lemma_direct_name(a, b, next, longer);
    }
}

proof fn lemma_records_first(addrs: Seq<Ipv4Addr>, ttl: u32)
    requires
        addrs.len() > 0,
    ensures
        a_records(addrs, ttl) == a_record(addrs[0], ttl) + a_records(addrs.skip(1), ttl),
    decreases addrs.len(),
{
    if addrs.len() == 1 {
        assert(addrs.drop_last() =~= Seq::empty());
        assert(addrs.skip(1) =~= Seq::empty());
        assert(a_records(addrs, ttl) =~= a_record(addrs[0], ttl) + a_records(addrs.skip(1), ttl));
    } else {
        lemma_records_first(addrs.drop_last(), ttl);
        assert(addrs.drop_last().skip(1) =~= addrs.skip(1).drop_last());
        assert(addrs.skip(1).last() == addrs.last());
        assert(a_records(addrs, ttl) =~= a_record(addrs[0], ttl) + a_records(addrs.skip(1), ttl));
    }
}

/// The name of a record that points to the question is the question's.
proof fn lemma_pointer_name(msg: Seq<u8>, at: int, name: Seq<char>)
    requires
        0 <= at,
        at + 2 <= msg.len(),
        msg[at] == 0xc0,
        msg[at + 1] == 0x0c,
        direct(msg, 12),
        name_at(msg, 12, Seq::empty(), 0) == Some(name),
    ensures
        name_in(msg, at) is Some,
        name_end(msg, at) == at + 2,
{
    assert(be16_at(msg, at) == 0xc00c);
    assert(0xc00cint % 0x4000 == 12);
    lemma_jumps_do_not_matter(msg, 12, Seq::empty());
}

proof fn lemma_jumps_do_not_matter(msg: Seq<u8>, at: int, name: Seq<char>)
    requires
        direct(msg, at),
    ensures
        name_at(msg, at, name, 1) == name_at(msg, at, name, 0),
    decreases msg.len() - at,
{
    if msg[at] != 0 {
        let next = at + 1 + msg[at];
        lemma_jumps_do_not_matter(msg, next, extended(name, msg.subrange(at + 1, next)));
    }
}

proof fn lemma_records_read_back(
    msg: Seq<u8>,
    at: int,
    name: Seq<char>,
    addrs: Seq<Ipv4Addr>,
    ttl: u32,
)
    requires
        0 <= at,
        msg.len() == at + a_records(addrs, ttl).len(),
        msg.skip(at) == a_records(addrs, ttl),
        direct(msg, 12),
        name_at(msg, 12, Seq::empty(), 0) == Some(name),
    ensures
        addrs_from(msg, at, addrs.len()) == Some(addrs),
    decreases addrs.len(),
{
    if addrs.len() == 0 {
        assert(addrs =~= Seq::empty());
    } else {
        lemma_records_first(addrs, ttl);
        let rec = a_record(addrs[0], ttl);
        assert(rec.len() == 16);
        assert forall|k: int| 0 <= k < 16 implies msg[at + k] == #[trigger] rec[k] by {
            assert(msg.skip(at)[k] == msg[at + k]);
        }
        assert(rec[0] == 0xc0 && rec[1] == 0x0c);
        lemma_pointer_name(msg, at, name);
        assert(rec[2] == 0 && rec[3] == 1 && rec[4] == 0 && rec[5] == 1);
        assert(rec[10] == 0 && rec[11] == 4);
        assert(be16_at(msg, at + 2) == TYPE_A);
        assert(be16_at(msg, at + 4) == CLASS_IN);
        assert(be16_at(msg, at + 10) == 4);
        crate::bytes::lemma_be32(addrs[0].bits);
        assert(rec.subrange(12, 16) =~= be32_bytes(addrs[0].bits));
        assert(rec[12] == rec.subrange(12, 16)[0] && rec[13] == rec.subrange(12, 16)[1] && rec[14]
            == rec.subrange(12, 16)[2] && rec[15] == rec.subrange(12, 16)[3]);
        assert(be32_at(msg, at + 12) == addrs[0].bits);
        assert(msg.skip(at + 16) =~= a_records(addrs.skip(1), ttl)) by {
            assert(msg.skip(at).skip(16) =~= msg.skip(at + 16));
            assert((rec + a_records(addrs.skip(1), ttl)).skip(16) =~= a_records(
                addrs.skip(1),
                ttl,
            ));
        }
        lemma_records_read_back(msg, at + 16, name, addrs.skip(1), ttl);
        assert(seq![addrs[0]] + addrs.skip(1) =~= addrs);
    }
}

/// What is answered is read back: for a question whose name uses no pointers,
/// the answer that is built for it has its identifier, name and type, the code
/// and the addresses.
#[verifier::spinoff_prover]
#[verifier::rlimit(60)]
pub proof fn law_dns_answer_round_trip(
    msg: Seq<u8>,
    q: Question,
    rcode: u8,
    addrs: Seq<Ipv4Addr>,
    ttl: u32,
)
    requires
        question_in(msg) == Some(q),
        direct(msg, 12),
        addrs.len() < 0x1_0000,
    ensures
        answer_in(response(q, rcode, addrs, ttl)) == Some(
            Answered {
                id: q.id,
                rcode: (rcode % 16) as u8,
                name: q.name,
                qtype: q.qtype,
                addrs,
            },
        ),
        question_in(response(q, rcode, addrs, ttl)) is None,
{
    let r = response(q, rcode, addrs, ttl);
    let after = name_end(msg, 12);
    lemma_name_end_bounds(msg, 12);
    let tail = q.question + a_records(addrs, ttl);
    let head = answer_head(q, rcode, addrs.len() as u16);
    assert(r =~= head + tail);
    lemma_answer_head(q, rcode, addrs.len() as u16, tail);
    assert forall|k: int| 12 <= k < after + 4 implies msg[k] == #[trigger] r[k] by {
        assert(r[k] == tail[k - 12]);
        assert(q.question[k - 12] == msg[k]);
    }
    lemma_direct_name(msg, r, 12, Seq::empty());
    assert(r.skip(after + 4) =~= a_records(addrs, ttl));
    assert(questions_end(r, 12, 1) == Some(after + 4)) by {
        reveal_with_fuel(questions_end, 2);
    }
    lemma_records_read_back(r, after + 4, q.name, addrs, ttl);
    assert(be16_at(r, after) == be16_at(msg, after));
}

/// The header of an answer.
spec fn answer_head(q: Question, rcode: u8, count: u16) -> Seq<u8> {
    be16_bytes(q.id) + be16_bytes(answer_flags(q, rcode)) + be16_bytes(1) + be16_bytes(count)
        + zeros(4)
}

proof fn lemma_answer_head(q: Question, rcode: u8, count: u16, tail: Seq<u8>)
    ensures
        ({
            let r = answer_head(q, rcode, count) + tail;
            &&& answer_head(q, rcode, count).len() == 12
            &&& be16_at(r, 0) == q.id
            &&& be16_at(r, 2) >= 0x8000
            &&& be16_at(r, 2) % 16 == rcode % 16
            &&& be16_at(r, 4) == 1
            &&& be16_at(r, 6) == count
        }),
{
    let flags = answer_flags(q, rcode);
    let r = answer_head(q, rcode, count) + tail;
    crate::bytes::lemma_be16(q.id);
    crate::bytes::lemma_be16(flags);
    crate::bytes::lemma_be16(count);
    assert(r[0] == be16_bytes(q.id)[0] && r[1] == be16_bytes(q.id)[1]);
    assert(r[2] == be16_bytes(flags)[0] && r[3] == be16_bytes(flags)[1]);
    assert(r[4] == 0 && r[5] == 1);
    assert(r[6] == be16_bytes(count)[0] && r[7] == be16_bytes(count)[1]);
    assert(flags >= 0x8000);
    assert(flags % 16 == rcode % 16);
}

/// Text of the labels between the dots of `b`, after `name`.
pub open spec fn spoken(name: Seq<char>, b: Seq<u8>) -> Seq<char>
    decreases b.len(),
{
    let i = dot(b);
    if i < 0 || i >= b.len() {
        if b.len() == 0 { name } else { extended(name, b) }
    } else {
        spoken(if i == 0 { name } else { extended(name, b.take(i)) }, b.skip(i + 1))
    }
}

/// Every label of `b` can be encoded: at most 63 bytes.
pub open spec fn short_labels(b: Seq<u8>) -> bool
    decreases b.len(),
{
    let i = dot(b);
    if i < 0 || i >= b.len() {
        b.len() <= 63
    } else {
        i <= 63 && short_labels(b.skip(i + 1))
    }
}

proof fn lemma_spoken_grows(name: Seq<char>, b: Seq<u8>)
    ensures
        name.len() <= spoken(name, b).len(),
    decreases b.len(),
{
    let i = dot(b);
    if 0 <= i < b.len() {
        lemma_spoken_grows(if i == 0 { name } else { extended(name, b.take(i)) }, b.skip(i + 1));
    }
}

/// One label at `at`.
proof fn lemma_name_step(msg: Seq<u8>, at: int, name: Seq<char>, l: Seq<u8>)
    requires
        0 <= at,
        at + 1 + l.len() <= msg.len(),
        1 <= l.len() <= 63,
        msg.subrange(at, at + 1 + l.len()) == label_bytes(l),
        extended(name, l).len() <= MAX_NAME,
    ensures
        name_at(msg, at, name, 0) == name_at(msg, at + 1 + l.len(), extended(name, l), 0),
        name_end(msg, at) == name_end(msg, at + 1 + l.len()),
{
    let part = msg.subrange(at, at + 1 + l.len());
    assert(part[0] == l.len());
    assert(msg[at] == l.len());
    assert(msg.subrange(at + 1, at + 1 + l.len()) =~= l) by {
        assert forall|k: int| 0 <= k < l.len() implies msg[at + 1 + k] == l[k] by {
            assert(part[k + 1] == l[k]);
        }
    }
}

proof fn lemma_name_reads_back(msg: Seq<u8>, at: int, name: Seq<char>, b: Seq<u8>)
    requires
        0 <= at,
        at + name_bytes(b).len() < msg.len(),
        msg.subrange(at, at + name_bytes(b).len()) == name_bytes(b),
        msg[at + name_bytes(b).len()] == 0,
        short_labels(b),
        spoken(name, b).len() <= MAX_NAME,
    ensures
        name_at(msg, at, name, 0) == Some(spoken(name, b)),
        name_end(msg, at) == at + name_bytes(b).len() + 1,
    decreases b.len(),
{
    lemma_dot(b);
    let i = dot(b);
    if i >= b.len() {
        if b.len() > 0 {
            lemma_name_step(msg, at, name, b);
        }
    } else {
        let l = b.take(i);
        let rest = b.skip(i + 1);
        let name2 = if i == 0 { name } else { extended(name, l) };
        lemma_spoken_grows(name2, rest);
        let whole = name_bytes(b);
        assert(whole == label_bytes(l) + name_bytes(rest));
        let n = label_bytes(l).len();
        assert(msg.subrange(at, at + n) =~= whole.take(n as int));
        assert(whole.take(n as int) =~= label_bytes(l));
        assert(msg.subrange(at + n, at + n + name_bytes(rest).len()) =~= whole.skip(n as int));
        assert(whole.skip(n as int) =~= name_bytes(rest));
        if i > 0 {
            lemma_name_step(msg, at, name, l);
        }
        lemma_name_reads_back(msg, at + n, name2, rest);
    }
}

proof fn lemma_byte_text(b: u8)
    ensures
        1 <= byte_text(b).len() <= 4,
{
    let n = lower(b) as nat;
    reveal_with_fuel(decimal, 4);
    assert(decimal(n).len() <= 3);
    assert(padded(decimal(n), '0', 3).len() == 3);
}

proof fn lemma_label_text(l: Seq<u8>)
    ensures
        label_text(l).len() <= 4 * l.len(),
    decreases l.len(),
{
    if l.len() > 0 {
        lemma_label_text(l.drop_last());
        lemma_byte_text(l.last());
    }
}

/// A byte takes at most four characters, and a dot stands for one of the bytes.
proof fn lemma_spoken_bound(name: Seq<char>, b: Seq<u8>)
    ensures
        spoken(name, b).len() <= name.len() + 1 + 4 * b.len(),
    decreases b.len(),
{
    lemma_dot(b);
    let i = dot(b);
    if i >= b.len() {
        lemma_label_text(b);
    } else {
        lemma_label_text(b.take(i));
        lemma_spoken_bound(
            if i == 0 { name } else { extended(name, b.take(i)) },
            b.skip(i + 1),
        );
    }
}

/// The bytes of a name in lower case.
pub open spec fn lowered(b: Seq<u8>) -> Seq<char> {
    b.map_values(|c: u8| lower(c) as char)
}

/// Printable labels without a backslash, none of them empty.
pub open spec fn plain_name(b: Seq<u8>) -> bool {
    &&& b.len() > 0
    &&& b[0] != 46
    &&& b.last() != 46
    &&& forall|i: int| 0 <= i < b.len() ==> plain(#[trigger] b[i]) || b[i] == 46
    &&& forall|i: int| 0 <= i < b.len() - 1 && (#[trigger] b[i]) == 46 ==> b[i + 1] != 46
}

proof fn lemma_plain_label(l: Seq<u8>)
    requires
        forall|i: int| 0 <= i < l.len() ==> plain(#[trigger] l[i]),
    ensures
        label_text(l) == lowered(l),
    decreases l.len(),
{
    if l.len() == 0 {
        assert(lowered(l) =~= Seq::empty());
    } else {
        lemma_plain_label(l.drop_last());
        assert(plain(l.last()));
        assert(plain(lower(l.last())));
        assert(lowered(l) =~= lowered(l.drop_last()) + seq![lower(l.last()) as char]);
    }
}

/// A printable name is read in lower case, its labels joined with dots.
pub proof fn law_plain_name_is_lowered(name: Seq<char>, b: Seq<u8>)
    requires
        plain_name(b),
    ensures
        spoken(name, b) == (if name.len() == 0 {
            lowered(b)
        } else {
            name.push('.') + lowered(b)
        }),
    decreases b.len(),
{
    lemma_dot(b);
    let i = dot(b);
    if i >= b.len() {
        lemma_plain_label(b);
    } else {
        let l = b.take(i);
        let rest = b.skip(i + 1);
        lemma_plain_label(l);
        assert(plain_name(rest));
        law_plain_name_is_lowered(extended(name, l), rest);
        assert(lowered(l).len() > 0);
        assert(lowered(b) =~= lowered(l).push('.') + lowered(rest));
        assert(spoken(name, b) =~= (if name.len() == 0 {
            lowered(b)
        } else {
            name.push('.') + lowered(b)
        }));
    }
}

/// An answer is not a question.
pub proof fn law_dns_answer_is_no_question(
    q: Question,
    rcode: u8,
    addrs: Seq<Ipv4Addr>,
    ttl: u32,
)
    ensures
        question_in(response(q, rcode, addrs, ttl)) is None,
{
    let tail = q.question + a_records(addrs, ttl);
    let head = answer_head(q, rcode, (addrs.len() % 0x1_0000) as u16);
    assert(response(q, rcode, addrs, ttl) =~= head + tail);
    lemma_answer_head(q, rcode, (addrs.len() % 0x1_0000) as u16, tail);
}

/// What is asked is read back: identifier, type, class IN, recursion desired,
/// the name in lower case, and the bytes of the question.
pub proof fn law_dns_query_round_trip(id: u16, name: Seq<u8>, qtype: u16)
    requires
        short_labels(name),
        name.len() <= 255,
    ensures
        question_in(query(id, name, qtype)) == Some(
            Question {
                id,
                recursion_desired: true,
                opcode: 0,
                name: spoken(Seq::empty(), name),
                qtype,
                qclass: CLASS_IN,
                question: query(id, name, qtype).skip(12),
            },
        ),
{
    lemma_spoken_bound(Seq::empty(), name);
    let m = query(id, name, qtype);
    let nb = name_bytes(name);
    let n = nb.len() as int;
    assert(m.len() == 12 + n + 5);
    assert(m.subrange(12, 12 + n) =~= nb);
    assert(m[12 + n] == 0);
    lemma_name_reads_back(m, 12, Seq::empty(), name);
    crate::bytes::lemma_be16(id);
    crate::bytes::lemma_be16(qtype);
    assert(m[0] == be16_bytes(id)[0] && m[1] == be16_bytes(id)[1]);
    assert(m[2] == 1 && m[3] == 0 && m[4] == 0 && m[5] == 1);
    assert(m[13 + n] == be16_bytes(qtype)[0] && m[14 + n] == be16_bytes(qtype)[1]);
    assert(m[15 + n] == 0 && m[16 + n] == 1);
    assert(be16_at(m, 2) == 0x100);
    assert(be16_at(m, 4) == 1);
    assert(m.subrange(12, 12 + n + 5) =~= m.skip(12));
}

/// A name that is only a pointer to itself is refused.
pub proof fn law_dns_loop_is_refused(msg: Seq<u8>, at: int, name: Seq<char>, jumps: int)
    requires
        0 <= at < 0x4000,
        at + 2 <= msg.len(),
        be16_at(msg, at) == 0xc000 + at,
        0 <= jumps <= MAX_JUMPS,
    ensures
        name_at(msg, at, name, jumps) is None,
    decreases MAX_JUMPS - jumps,
{
    assert(msg[at] >= 192);
    if jumps < MAX_JUMPS {
        assert((0xc000 + at) % 0x4000 == at);
        law_dns_loop_is_refused(msg, at, name, jumps + 1);
    }
}

} // verus!
