//! Guest memory as the devices see it (DMA on physical addresses).
use vstd::prelude::*;
use crate::bytes::{fill_front, le16, le16_at, le16_bytes, le32, le32_at, le32_bytes, le64, le64_at, push_le16, push_le32, zeroed};
use crate::text::{hexadecimal, push_hexadecimal, push_text};

verus! {

/// Access outside the guest's RAM.
#[derive(Clone, Copy, Debug, PartialEq, Eq, Structural)]
pub struct RamError {
    pub addr: u64,
    pub len: usize,
}

impl RamError {
    pub open spec fn text(self) -> Seq<char> {
        "accesso fuori dalla RAM del guest: 0x"@ + hexadecimal(self.addr as nat) + "+0x"@
            + hexadecimal(self.len as nat)
    }

    /// The error in words.
    pub fn to_string(&self) -> (r: String)
        ensures
            r@ == self.text(),
    {
        let mut s: String = String::new();
        push_text(&mut s, "accesso fuori dalla RAM del guest: 0x");
        push_hexadecimal(&mut s, self.addr);
        push_text(&mut s, "+0x");
        push_hexadecimal(&mut s, self.len as u64);
        assert(s@ =~= self.text());
        s
    }
}

/// The contents of the memory, by address.
pub type Mem = Map<int, u8>;

/// All of `[a, a + n)` is RAM.
pub open spec fn holds(m: Mem, a: int, n: nat) -> bool {
    forall|k: int| a <= k < a + n ==> #[trigger] m.dom().contains(k)
}

/// The bytes of `[a, a + n)`.
pub open spec fn bytes_at(m: Mem, a: int, n: nat) -> Seq<u8> {
    Seq::new(n, |k: int| m[a + k])
}

/// The memory after `data` is written at `a`.
pub open spec fn stored(m: Mem, a: int, data: Seq<u8>) -> Mem {
    Map::new(
        |k: int| m.dom().contains(k),
        |k: int|
            if a <= k < a + data.len() {
                data[k - a]
            } else {
                m[k]
            },
    )
}

/// The error of an access of `n` bytes at `a`.
pub open spec fn fault(a: int, n: nat) -> RamError {
    RamError { addr: (a % 0x1_0000_0000_0000_0000) as u64, len: n as usize }
}

/// Guest RAM seen from the devices.
///
/// An access must lie entirely in RAM, otherwise it fails and changes nothing.
pub trait GuestRam: Sized {
    spec fn mem(&self) -> Mem;

    /// Only 64-bit addresses hold RAM.
    proof fn addresses_fit(&self, a: int)
        ensures
            self.mem().dom().contains(a) ==> 0 <= a < 0x1_0000_0000_0000_0000,
    ;

    fn read(&self, addr: u64, buf: &mut [u8]) -> (r: Result<(), RamError>)
        ensures
            final(buf)@.len() == old(buf)@.len(),
            old(buf)@.len() > 0 ==> match r {
                Ok(_) => holds(self.mem(), addr as int, old(buf)@.len()) && final(buf)@ == bytes_at(
                    self.mem(),
                    addr as int,
                    old(buf)@.len(),
                ),
                Err(e) => !holds(self.mem(), addr as int, old(buf)@.len()) && e == fault(
                    addr as int,
                    old(buf)@.len(),
                ),
            },
    ;

    fn write(&mut self, addr: u64, data: &[u8]) -> (r: Result<(), RamError>)
        ensures
            data@.len() > 0 ==> match r {
                Ok(_) => holds(old(self).mem(), addr as int, data@.len()) && final(self).mem()
                    == stored(old(self).mem(), addr as int, data@),
                Err(e) => !holds(old(self).mem(), addr as int, data@.len()) && e == fault(
                    addr as int,
                    data@.len(),
                ) && final(self).mem() == old(self).mem(),
            },
            data@.len() == 0 ==> final(self).mem() == old(self).mem(),
    ;
}

/// What a read of `n` bytes at `a` gives.
pub open spec fn fetched(m: Mem, a: int, n: nat) -> Result<Seq<u8>, RamError> {
    if holds(m, a, n) { Ok(bytes_at(m, a, n)) } else { Err(fault(a, n)) }
}

pub open spec fn fetched16(m: Mem, a: int) -> Result<u16, RamError> {
    if holds(m, a, 2) { Ok(le16_at(bytes_at(m, a, 2), 0)) } else { Err(fault(a, 2)) }
}

pub open spec fn fetched32(m: Mem, a: int) -> Result<u32, RamError> {
    if holds(m, a, 4) { Ok(le32_at(bytes_at(m, a, 4), 0)) } else { Err(fault(a, 4)) }
}

pub open spec fn fetched64(m: Mem, a: int) -> Result<u64, RamError> {
    if holds(m, a, 8) { Ok(le64_at(bytes_at(m, a, 8), 0)) } else { Err(fault(a, 8)) }
}

/// What a write of `data` at `a` leads to.
pub open spec fn placed(m: Mem, a: int, data: Seq<u8>) -> (Mem, Result<(), RamError>) {
    if holds(m, a, data.len()) { (stored(m, a, data), Ok(())) } else { (m, Err(fault(a, data.len()))) }
}

/// Reads `n` bytes at `base + off`; an address past the 64-bit space is not RAM.
pub fn ram_read<R: GuestRam>(ram: &R, base: u64, off: u64, n: usize) -> (r: Result<Vec<u8>, RamError>)
    requires
        n > 0,
    ensures
        match r {
            Ok(v) => fetched(ram.mem(), base + off, n as nat) == Ok::<Seq<u8>, RamError>(v@),
            Err(e) => fetched(ram.mem(), base + off, n as nat) == Err::<Seq<u8>, RamError>(e),
        },
{
    if off > u64::MAX - base {
        proof {
            ram.addresses_fit(base + off);
            if holds(ram.mem(), base + off, n as nat) {
                assert(ram.mem().dom().contains(base + off));
            }
        }
        return Err(RamError { addr: base.wrapping_add(off), len: n });
    }
    let mut v: Vec<u8> = zeroed(n);
    match ram.read(base + off, v.as_mut_slice()) {
        Ok(_) => Ok(v),
        Err(e) => Err(e),
    }
}

/// Bytes that [`ram_holds`] reads at a time.
pub const PROBE: u32 = 4096;

/// Whether all of `[addr, addr + len)` is RAM.
pub fn ram_holds<R: GuestRam>(ram: &R, addr: u64, len: u32) -> (r: bool)
    ensures
        r == holds(ram.mem(), addr as int, len as nat),
{
    if len == 0 {
        return true;
    }
    // The last byte first: most of what is not RAM ends outside it.
    if ram_read(ram, addr, (len - 1) as u64, 1).is_err() {
        return false;
    }
    let mut off: u32 = 0;
    while off < len
        invariant
            off <= len,
            holds(ram.mem(), addr as int, off as nat),
        decreases len - off,
    {
        let n: u32 = if len - off < PROBE { len - off } else { PROBE };
        match ram_read(ram, addr, off as u64, n as usize) {
            Ok(_) => {
                assert(holds(ram.mem(), addr + off, n as nat));
                off += n;
            },
            Err(_) => {
                assert(!holds(ram.mem(), addr + off, n as nat));
                return false;
            },
        }
    }
    true
}

/// Writes `data` at `base + off`.
pub fn ram_write<R: GuestRam>(ram: &mut R, base: u64, off: u64, data: &[u8]) -> (r: Result<
    (),
    RamError,
>)
    requires
        data@.len() > 0,
    ensures
        (final(ram).mem(), r) == placed(old(ram).mem(), base + off, data@),
{
    if off > u64::MAX - base {
        proof {
            ram.addresses_fit(base + off);
            if holds(ram.mem(), base + off, data@.len()) {
                assert(ram.mem().dom().contains(base + off));
            }
        }
        return Err(RamError { addr: base.wrapping_add(off), len: data.len() });
    }
    match ram.write(base + off, data) {
        Ok(_) => Ok(()),
        Err(e) => Err(e),
    }
}

pub fn read_u16<R: GuestRam>(ram: &R, base: u64, off: u64) -> (r: Result<u16, RamError>)
    ensures
        r == fetched16(ram.mem(), base + off),
{
    match ram_read(ram, base, off, 2) {
        Ok(v) => Ok(le16(v.as_slice(), 0)),
        Err(e) => Err(e),
    }
}

pub fn read_u32<R: GuestRam>(ram: &R, base: u64, off: u64) -> (r: Result<u32, RamError>)
    ensures
        r == fetched32(ram.mem(), base + off),
{
    match ram_read(ram, base, off, 4) {
        Ok(v) => Ok(le32(v.as_slice(), 0)),
        Err(e) => Err(e),
    }
}

pub fn read_u64<R: GuestRam>(ram: &R, base: u64, off: u64) -> (r: Result<u64, RamError>)
    ensures
        r == fetched64(ram.mem(), base + off),
{
    match ram_read(ram, base, off, 8) {
        Ok(v) => Ok(le64(v.as_slice(), 0)),
        Err(e) => Err(e),
    }
}

pub fn write_u16<R: GuestRam>(ram: &mut R, base: u64, off: u64, v: u16) -> (r: Result<(), RamError>)
    ensures
        (final(ram).mem(), r) == placed(old(ram).mem(), base + off, le16_bytes(v)),
{
    let mut b: Vec<u8> = Vec::new();
    push_le16(&mut b, v);
    assert(b@ =~= le16_bytes(v));
    ram_write(ram, base, off, b.as_slice())
}

pub fn write_u32<R: GuestRam>(ram: &mut R, base: u64, off: u64, v: u32) -> (r: Result<(), RamError>)
    ensures
        (final(ram).mem(), r) == placed(old(ram).mem(), base + off, le32_bytes(v)),
{
    let mut b: Vec<u8> = Vec::new();
    push_le32(&mut b, v);
    assert(b@ =~= le32_bytes(v));
    ram_write(ram, base, off, b.as_slice())
}

/// Little-endian reads and writes on [`GuestRam`].
pub trait GuestRamExt: GuestRam {
    fn read_u16(&self, addr: u64) -> (r: Result<u16, RamError>)
        ensures
            r == fetched16(self.mem(), addr as int),
    ;

    fn read_u32(&self, addr: u64) -> (r: Result<u32, RamError>)
        ensures
            r == fetched32(self.mem(), addr as int),
    ;

    fn read_u64(&self, addr: u64) -> (r: Result<u64, RamError>)
        ensures
            r == fetched64(self.mem(), addr as int),
    ;

    fn write_u16(&mut self, addr: u64, v: u16) -> (r: Result<(), RamError>)
        ensures
            (final(self).mem(), r) == placed(old(self).mem(), addr as int, le16_bytes(v)),
    ;

    fn write_u32(&mut self, addr: u64, v: u32) -> (r: Result<(), RamError>)
        ensures
            (final(self).mem(), r) == placed(old(self).mem(), addr as int, le32_bytes(v)),
    ;
}

impl<T: GuestRam> GuestRamExt for T {
    fn read_u16(&self, addr: u64) -> (r: Result<u16, RamError>) {
        read_u16(self, addr, 0)
    }

    fn read_u32(&self, addr: u64) -> (r: Result<u32, RamError>) {
        read_u32(self, addr, 0)
    }

    fn read_u64(&self, addr: u64) -> (r: Result<u64, RamError>) {
        read_u64(self, addr, 0)
    }

    fn write_u16(&mut self, addr: u64, v: u16) -> (r: Result<(), RamError>) {
        write_u16(self, addr, 0, v)
    }

    fn write_u32(&mut self, addr: u64, v: u32) -> (r: Result<(), RamError>) {
        write_u32(self, addr, 0, v)
    }
}

/// Contiguous RAM in a `Vec`, from `base` on.
#[derive(Clone, Debug)]
pub struct VecRam {
    pub base: u64,
    pub bytes: Vec<u8>,
}

impl VecRam {
    /// `size` zero bytes from `base` on.
    pub fn new(base: u64, size: usize) -> (r: Self)
        ensures
            r.base == base,
            r.bytes@ == crate::bytes::zeros(size as nat),
    {
        VecRam { base, bytes: zeroed(size) }
    }

    /// Where the access starts in the vector.
    pub open spec fn inside(self, addr: u64, len: nat) -> bool {
        self.base <= addr && addr - self.base + len <= self.bytes@.len() && addr + len
            <= 0x1_0000_0000_0000_0000
    }

    fn start(&self, addr: u64, len: usize) -> (r: Result<usize, RamError>)
        ensures
            match r {
                Ok(s) => self.inside(addr, len as nat) && s == addr - self.base,
                Err(e) => !self.inside(addr, len as nat) && e == fault(addr as int, len as nat),
            },
    {
        let e = RamError { addr, len };
        if addr < self.base {
            return Err(e);
        }
        let start: u64 = addr - self.base;
        let have: u64 = self.bytes.len() as u64;
        if start > have || len as u64 > have - start {
            return Err(e);
        }
        if len > 0 && len as u64 - 1 > u64::MAX - addr {
            return Err(e);
        }
        Ok(start as usize)
    }
}

impl GuestRam for VecRam {
    open spec fn mem(&self) -> Mem {
        Map::new(
            |a: int| self.base <= a < self.base + self.bytes@.len() && a < 0x1_0000_0000_0000_0000,
            |a: int| self.bytes@[a - self.base],
        )
    }

    proof fn addresses_fit(&self, a: int) {
    }

    fn read(&self, addr: u64, buf: &mut [u8]) -> (r: Result<(), RamError>) {
        let n: usize = buf.len();
        match self.start(addr, n) {
            Err(e) => {
                proof {
                    lemma_outside(*self, addr, n as nat);
                }
                Err(e)
            },
            Ok(s) => {
                let have: usize = self.bytes.len();
                assert(s + n <= have);
                let part: &[u8] = vstd::slice::slice_subrange(self.bytes.as_slice(), s, s + n);
                fill_front(buf, part);
                assert(buf@ =~= bytes_at(self.mem(), addr as int, n as nat));
                Ok(())
            },
        }
    }

    fn write(&mut self, addr: u64, data: &[u8]) -> (r: Result<(), RamError>) {
        match self.start(addr, data.len()) {
            Err(e) => {
                proof {
                    lemma_outside(*self, addr, data@.len());
                }
                Err(e)
            },
            Ok(s) => {
                crate::bytes::copy_into(&mut self.bytes, s, data);
                assert(self.mem() =~= stored(old(self).mem(), addr as int, data@));
                assert(data@.len() == 0 ==> self.mem() =~= old(self).mem());
                Ok(())
            },
        }
    }
}

proof fn lemma_outside(r: VecRam, addr: u64, n: nat)
    requires
        !r.inside(addr, n),
    ensures
        n > 0 ==> !holds(r.mem(), addr as int, n),
{
    if n > 0 && holds(r.mem(), addr as int, n) {
        assert(r.mem().dom().contains(addr as int));
        assert(r.mem().dom().contains(addr + n - 1));
    }
}

/// What is written is read back, and the rest of the memory is untouched.
pub proof fn law_ram_reads_what_was_written(m: Mem, a: int, data: Seq<u8>, b: int, n: nat)
    requires
        holds(m, a, data.len()),
    ensures
        bytes_at(stored(m, a, data), a, data.len()) == data,
        holds(stored(m, a, data), b, n) == holds(m, b, n),
        holds(m, b, n) && (b + n <= a || a + data.len() <= b) ==> bytes_at(
            stored(m, a, data),
            b,
            n,
        ) == bytes_at(m, b, n),
{
    let s = stored(m, a, data);
    assert forall|k: int| 0 <= k < data.len() implies s[a + k] == data[k] by {
        assert(m.dom().contains(a + k));
    }
    assert(bytes_at(s, a, data.len()) =~= data);
    assert(s.dom() =~= m.dom());
    if holds(m, b, n) && (b + n <= a || a + data.len() <= b) {
        assert forall|k: int| 0 <= k < n implies #[trigger] bytes_at(s, b, n)[k] == bytes_at(m, b, n)[k] by {
            assert(m.dom().contains(b + k));
        }
        assert(bytes_at(s, b, n) =~= bytes_at(m, b, n));
    }
}

} // verus!
