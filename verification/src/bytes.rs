//! Numbers as bytes, and byte buffers.
use vstd::prelude::*;
use std::collections::VecDeque;

verus! {

// ---- Big endian -------------------------------------------------------------

/// The big-endian 16-bit number at `at`.
pub open spec fn be16_at(s: Seq<u8>, at: int) -> u16 {
    (s[at] * 0x100 + s[at + 1]) as u16
}

/// The big-endian 32-bit number at `at`.
pub open spec fn be32_at(s: Seq<u8>, at: int) -> u32 {
    (s[at] * 0x100_0000 + s[at + 1] * 0x1_0000 + s[at + 2] * 0x100 + s[at + 3]) as u32
}

pub open spec fn be16_bytes(v: u16) -> Seq<u8> {
    seq![(v / 0x100) as u8, (v % 0x100) as u8]
}

pub open spec fn be32_bytes(v: u32) -> Seq<u8> {
    seq![
        (v / 0x100_0000) as u8,
        (v / 0x1_0000 % 0x100) as u8,
        (v / 0x100 % 0x100) as u8,
        (v % 0x100) as u8,
    ]
}

pub open spec fn be64_bytes(v: u64) -> Seq<u8> {
    be32_bytes((v / 0x1_0000_0000) as u32) + be32_bytes((v % 0x1_0000_0000) as u32)
}

pub fn be16(b: &[u8], at: usize) -> (r: u16)
    requires
        at + 2 <= b@.len(),
    ensures
        r == be16_at(b@, at as int),
{
    b[at] as u16 * 0x100 + b[at + 1] as u16
}

pub fn be32(b: &[u8], at: usize) -> (r: u32)
    requires
        at + 4 <= b@.len(),
    ensures
        r == be32_at(b@, at as int),
{
    b[at] as u32 * 0x100_0000 + b[at + 1] as u32 * 0x1_0000 + b[at + 2] as u32 * 0x100 + b[at
        + 3] as u32
}

pub fn push_be16(v: &mut Vec<u8>, x: u16)
    ensures
        final(v)@ == old(v)@ + be16_bytes(x),
{
    v.push((x / 0x100) as u8);
    v.push((x % 0x100) as u8);
    assert(v@ =~= old(v)@ + be16_bytes(x));
}

pub fn push_be32(v: &mut Vec<u8>, x: u32)
    ensures
        final(v)@ == old(v)@ + be32_bytes(x),
{
    v.push((x / 0x100_0000) as u8);
    v.push((x / 0x1_0000 % 0x100) as u8);
    v.push((x / 0x100 % 0x100) as u8);
    v.push((x % 0x100) as u8);
    assert(v@ =~= old(v)@ + be32_bytes(x));
}

pub fn push_be64(v: &mut Vec<u8>, x: u64)
    ensures
        final(v)@ == old(v)@ + be64_bytes(x),
{
    push_be32(v, (x / 0x1_0000_0000) as u32);
    push_be32(v, (x % 0x1_0000_0000) as u32);
    assert(v@ =~= old(v)@ + be64_bytes(x));
}

/// Two bytes and the 16-bit number they stand for determine each other.
pub proof fn lemma_be16(v: u16)
    ensures
        be16_bytes(v).len() == 2,
        be16_at(be16_bytes(v), 0) == v,
{
}

pub proof fn lemma_be32(v: u32)
    ensures
        be32_bytes(v).len() == 4,
        be32_at(be32_bytes(v), 0) == v,
{
    let a = (v / 0x100_0000) as int;
    let b = (v / 0x1_0000 % 0x100) as int;
    let c = (v / 0x100 % 0x100) as int;
    let d = (v % 0x100) as int;
    assert(v == a * 0x100_0000 + b * 0x1_0000 + c * 0x100 + d);
}

// ---- Little endian ----------------------------------------------------------

pub open spec fn le16_at(s: Seq<u8>, at: int) -> u16 {
    (s[at] + s[at + 1] * 0x100) as u16
}

pub open spec fn le32_at(s: Seq<u8>, at: int) -> u32 {
    (s[at] + s[at + 1] * 0x100 + s[at + 2] * 0x1_0000 + s[at + 3] * 0x100_0000) as u32
}

pub open spec fn le64_at(s: Seq<u8>, at: int) -> u64 {
    (le32_at(s, at) + le32_at(s, at + 4) * 0x1_0000_0000) as u64
}

pub open spec fn le16_bytes(v: u16) -> Seq<u8> {
    seq![(v % 0x100) as u8, (v / 0x100) as u8]
}

pub open spec fn le32_bytes(v: u32) -> Seq<u8> {
    seq![
        (v % 0x100) as u8,
        (v / 0x100 % 0x100) as u8,
        (v / 0x1_0000 % 0x100) as u8,
        (v / 0x100_0000) as u8,
    ]
}

pub open spec fn le64_bytes(v: u64) -> Seq<u8> {
    le32_bytes((v % 0x1_0000_0000) as u32) + le32_bytes((v / 0x1_0000_0000) as u32)
}

pub fn le16(b: &[u8], at: usize) -> (r: u16)
    requires
        at + 2 <= b@.len(),
    ensures
        r == le16_at(b@, at as int),
{
    b[at] as u16 + b[at + 1] as u16 * 0x100
}

pub fn le32(b: &[u8], at: usize) -> (r: u32)
    requires
        at + 4 <= b@.len(),
    ensures
        r == le32_at(b@, at as int),
{
    b[at] as u32 + b[at + 1] as u32 * 0x100 + b[at + 2] as u32 * 0x1_0000 + b[at + 3] as u32
        * 0x100_0000
}

pub fn le64(b: &[u8], at: usize) -> (r: u64)
    requires
        at + 8 <= b@.len(),
    ensures
        r == le64_at(b@, at as int),
{
    let n: usize = b.len();
    assert(at + 8 <= n);
    le32(b, at) as u64 + le32(b, at + 4) as u64 * 0x1_0000_0000
}

pub fn push_le16(v: &mut Vec<u8>, x: u16)
    ensures
        final(v)@ == old(v)@ + le16_bytes(x),
{
    v.push((x % 0x100) as u8);
    v.push((x / 0x100) as u8);
    assert(v@ =~= old(v)@ + le16_bytes(x));
}

pub fn push_le32(v: &mut Vec<u8>, x: u32)
    ensures
        final(v)@ == old(v)@ + le32_bytes(x),
{
    v.push((x % 0x100) as u8);
    v.push((x / 0x100 % 0x100) as u8);
    v.push((x / 0x1_0000 % 0x100) as u8);
    v.push((x / 0x100_0000) as u8);
    assert(v@ =~= old(v)@ + le32_bytes(x));
}

pub fn push_le64(v: &mut Vec<u8>, x: u64)
    ensures
        final(v)@ == old(v)@ + le64_bytes(x),
{
    push_le32(v, (x % 0x1_0000_0000) as u32);
    push_le32(v, (x / 0x1_0000_0000) as u32);
    assert(v@ =~= old(v)@ + le64_bytes(x));
}

pub proof fn lemma_le16(v: u16)
    ensures
        le16_bytes(v).len() == 2,
        le16_at(le16_bytes(v), 0) == v,
{
}

pub proof fn lemma_le32(v: u32)
    ensures
        le32_bytes(v).len() == 4,
        le32_at(le32_bytes(v), 0) == v,
{
    let a = (v / 0x100_0000) as int;
    let b = (v / 0x1_0000 % 0x100) as int;
    let c = (v / 0x100 % 0x100) as int;
    let d = (v % 0x100) as int;
    assert(v == a * 0x100_0000 + b * 0x1_0000 + c * 0x100 + d);
}

pub proof fn lemma_le64(v: u64)
    ensures
        le64_bytes(v).len() == 8,
        le64_at(le64_bytes(v), 0) == v,
{
    let lo = (v % 0x1_0000_0000) as u32;
    let hi = (v / 0x1_0000_0000) as u32;
    lemma_le32(lo);
    lemma_le32(hi);
    let s = le64_bytes(v);
    assert(le32_at(s, 0) == le32_at(le32_bytes(lo), 0));
    assert(le32_at(s, 4) == le32_at(le32_bytes(hi), 0));
}

/// What stands at `at` is `v`, written there, and the other way round.
pub proof fn lemma_le16_in(s: Seq<u8>, at: int, v: u16)
    requires
        0 <= at && at + 2 <= s.len(),
    ensures
        s.subrange(at, at + 2) == le16_bytes(v) <==> le16_at(s, at) == v,
{
    let t = s.subrange(at, at + 2);
    assert(t[0] == s[at] && t[1] == s[at + 1]);
    if t == le16_bytes(v) {
        lemma_le16(v);
    }
    if le16_at(s, at) == v {
        assert(v == s[at] + s[at + 1] * 0x100);
        assert(t =~= le16_bytes(v));
    }
}

pub proof fn lemma_le32_in(s: Seq<u8>, at: int, v: u32)
    requires
        0 <= at && at + 4 <= s.len(),
    ensures
        s.subrange(at, at + 4) == le32_bytes(v) <==> le32_at(s, at) == v,
{
    let t = s.subrange(at, at + 4);
    assert(t[0] == s[at] && t[1] == s[at + 1] && t[2] == s[at + 2] && t[3] == s[at + 3]);
    if t == le32_bytes(v) {
        lemma_le32(v);
    }
    if le32_at(s, at) == v {
        let (a, b, c, d) = (s[at] as int, s[at + 1] as int, s[at + 2] as int, s[at + 3] as int);
        assert(v == a + b * 0x100 + c * 0x1_0000 + d * 0x100_0000);
        assert(v / 0x100 == b + c * 0x100 + d * 0x1_0000);
        assert(v / 0x1_0000 == c + d * 0x100);
        assert(v / 0x100_0000 == d);
        assert(t =~= le32_bytes(v));
    }
}

pub proof fn lemma_le64_in(s: Seq<u8>, at: int, v: u64)
    requires
        0 <= at && at + 8 <= s.len(),
    ensures
        s.subrange(at, at + 8) == le64_bytes(v) <==> le64_at(s, at) == v,
{
    let lo = (v % 0x1_0000_0000) as u32;
    let hi = (v / 0x1_0000_0000) as u32;
    lemma_le32_in(s, at, lo);
    lemma_le32_in(s, at + 4, hi);
    let t = s.subrange(at, at + 8);
    assert(t =~= s.subrange(at, at + 4) + s.subrange(at + 4, at + 8));
    if t == le64_bytes(v) {
        lemma_le32(lo);
        lemma_le32(hi);
        assert(s.subrange(at, at + 4) =~= t.take(4));
        assert(s.subrange(at + 4, at + 8) =~= t.skip(4));
        assert(t.take(4) =~= le32_bytes(lo));
        assert(t.skip(4) =~= le32_bytes(hi));
    }
    if le64_at(s, at) == v {
        assert(le32_at(s, at) == lo);
        assert(le32_at(s, at + 4) == hi);
    }
}

// ---- Buffers ----------------------------------------------------------------

/// `n` zero bytes.
pub open spec fn zeros(n: nat) -> Seq<u8> {
    Seq::new(n, |i: int| 0u8)
}

pub open spec fn min_len(a: nat, b: nat) -> nat {
    if a <= b { a } else { b }
}

/// Appends a copy of `s`.
pub fn push_bytes(v: &mut Vec<u8>, s: &[u8])
    ensures
        final(v)@ == old(v)@ + s@,
{
    let mut i: usize = 0;
    while i < s.len()
        invariant
            i <= s@.len(),
            v@ == old(v)@ + s@.take(i as int),
        decreases s@.len() - i,
    {
        v.push(s[i]);
        i += 1;
        assert(v@ =~= old(v)@ + s@.take(i as int));
    }
    assert(s@.take(i as int) =~= s@);
}

/// A copy of `s`.
pub fn to_vec(s: &[u8]) -> (r: Vec<u8>)
    ensures
        r@ == s@,
{
    let mut v: Vec<u8> = Vec::new();
    push_bytes(&mut v, s);
    assert(v@ =~= s@);
    v
}

/// A buffer of `n` zero bytes.
pub fn zeroed(n: usize) -> (r: Vec<u8>)
    ensures
        r@ == zeros(n as nat),
{
    let mut v: Vec<u8> = Vec::new();
    push_zeros(&mut v, n);
    assert(v@ =~= zeros(n as nat));
    v
}

/// Appends `n` zero bytes.
pub fn push_zeros(v: &mut Vec<u8>, n: usize)
    ensures
        final(v)@ == old(v)@ + zeros(n as nat),
{
    let mut i: usize = 0;
    while i < n
        invariant
            i <= n,
            v@ == old(v)@ + zeros(i as nat),
        decreases n - i,
    {
        v.push(0);
        i += 1;
        assert(v@ =~= old(v)@ + zeros(i as nat));
    }
    assert(v@ =~= old(v)@ + zeros(n as nat));
}

/// The two slices hold the same bytes.
pub fn same_bytes(a: &[u8], b: &[u8]) -> (r: bool)
    ensures
        r == (a@ == b@),
{
    if a.len() != b.len() {
        return false;
    }
    let mut i: usize = 0;
    while i < a.len()
        invariant
            a@.len() == b@.len(),
            i <= a@.len(),
            forall|k: int| 0 <= k < i ==> a@[k] == b@[k],
        decreases a@.len() - i,
    {
        if a[i] != b[i] {
            assert(a@[i as int] != b@[i as int]);
            return false;
        }
        i += 1;
    }
    assert(a@ =~= b@);
    true
}

/// Appends `s` to a queue.
pub fn queue_bytes(q: &mut VecDeque<u8>, s: &[u8])
    ensures
        final(q)@ == old(q)@ + s@,
{
    let mut i: usize = 0;
    while i < s.len()
        invariant
            i <= s@.len(),
            q@ == old(q)@ + s@.take(i as int),
        decreases s@.len() - i,
    {
        q.push_back(s[i]);
        i += 1;
        assert(q@ =~= old(q)@ + s@.take(i as int));
    }
    assert(s@.take(i as int) =~= s@);
}

/// Drops the first `n` bytes of a queue.
pub fn drop_front(q: &mut VecDeque<u8>, n: usize)
    requires
        n <= old(q)@.len(),
    ensures
        final(q)@ == old(q)@.skip(n as int),
{
    let mut i: usize = 0;
    assert(q@ =~= old(q)@.skip(0));
    while i < n
        invariant
            i <= n <= old(q)@.len(),
            q@ == old(q)@.skip(i as int),
        decreases n - i,
    {
        let _ = q.pop_front();
        i += 1;
        assert(q@ =~= old(q)@.skip(i as int));
    }
}

/// A copy of the bytes `from..to` of a queue.
pub fn copy_range(q: &VecDeque<u8>, from: usize, to: usize) -> (r: Vec<u8>)
    requires
        from <= to <= q@.len(),
    ensures
        r@ == q@.subrange(from as int, to as int),
{
    let mut v: Vec<u8> = Vec::new();
    let mut i: usize = from;
    while i < to
        invariant
            from <= i <= to <= q@.len(),
            v@ == q@.subrange(from as int, i as int),
        decreases to - i,
    {
        v.push(q[i]);
        i += 1;
        assert(v@ =~= q@.subrange(from as int, i as int));
    }
    v
}

/// Takes the first `n` bytes out of a queue.
pub fn take_front(q: &mut VecDeque<u8>, n: usize) -> (r: Vec<u8>)
    requires
        n <= old(q)@.len(),
    ensures
        r@ == old(q)@.take(n as int),
        final(q)@ == old(q)@.skip(n as int),
{
    let r: Vec<u8> = copy_range(q, 0, n);
    assert(r@ =~= q@.take(n as int));
    drop_front(q, n);
    r
}

/// A queue with these bytes.
pub fn queue_of(s: &[u8]) -> (r: VecDeque<u8>)
    ensures
        r@ == s@,
{
    let mut q: VecDeque<u8> = VecDeque::new();
    queue_bytes(&mut q, s);
    assert(q@ =~= s@);
    q
}

/// Overwrites `dst[at..at + src.len()]` with `src`.
pub fn copy_into(dst: &mut Vec<u8>, at: usize, src: &[u8])
    requires
        at + src@.len() <= old(dst)@.len(),
    ensures
        final(dst)@ == patched(old(dst)@, at as int, src@),
{
    let end: usize = dst.len();
    let mut i: usize = 0;
    while i < src.len()
        invariant
            i <= src@.len(),
            at + src@.len() <= end == dst@.len(),
            dst@ == patched(old(dst)@, at as int, src@.take(i as int)),
        decreases src@.len() - i,
    {
        dst.set(at + i, src[i]);
        i += 1;
        assert(dst@ =~= patched(old(dst)@, at as int, src@.take(i as int)));
    }
    assert(src@.take(i as int) =~= src@);
    assert(dst@ =~= patched(old(dst)@, at as int, src@));
}

/// Overwrites the start of `dst` with `src`.
pub fn fill_front(dst: &mut [u8], src: &[u8])
    requires
        src@.len() <= old(dst)@.len(),
    ensures
        final(dst)@ == patched(old(dst)@, 0, src@),
        final(dst)@.take(src@.len() as int) == src@,
{
    let mut i: usize = 0;
    assert(dst@ =~= patched(old(dst)@, 0, src@.take(0)));
    while i < src.len()
        invariant
            i <= src@.len() <= dst@.len(),
            dst@.len() == old(dst)@.len(),
            dst@ == patched(old(dst)@, 0, src@.take(i as int)),
        decreases src@.len() - i,
    {
        dst[i] = src[i];
        i += 1;
        assert(dst@ =~= patched(old(dst)@, 0, src@.take(i as int)));
    }
    assert(src@.take(i as int) =~= src@);
    assert(dst@.take(src@.len() as int) =~= src@);
}

/// Moves bytes from a queue to the start of `dst`, as many as fit.
pub fn drain_into(q: &mut VecDeque<u8>, dst: &mut [u8]) -> (n: usize)
    ensures
        n == min_len(old(q)@.len(), old(dst)@.len()),
        final(dst)@ == patched(old(dst)@, 0, old(q)@.take(n as int)),
        final(dst)@.take(n as int) == old(q)@.take(n as int),
        final(q)@ == old(q)@.skip(n as int),
{
    let n: usize = if q.len() <= dst.len() { q.len() } else { dst.len() };
    let part: Vec<u8> = take_front(q, n);
    fill_front(dst, part.as_slice());
    n
}

/// `s` with the bytes from `at` on replaced by `part`.
pub open spec fn patched(s: Seq<u8>, at: int, part: Seq<u8>) -> Seq<u8> {
    Seq::new(s.len(), |i: int| if at <= i < at + part.len() { part[i - at] } else { s[i] })
}

} // verus!
