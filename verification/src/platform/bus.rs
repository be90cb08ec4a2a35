//! MMIO bus: routes physical reads and writes to devices by address range.
use vstd::prelude::*;
use crate::text::{hexadecimal, push_hexadecimal, push_text};

verus! {

/// A memory-mapped device. `offset` is relative to the base of its region;
/// `size` is 1, 2, 4 or 8 bytes. Values sit in the low bits.
///
/// The three spec functions say what an implementation does: `inv` is what
/// holds of the device between accesses, `reads` relates the device before a
/// read, the device after it and the value read, and `writes` relates the
/// device before and after a write. By default they claim nothing.
pub trait MmioDevice: Sized {
    open spec fn inv(&self) -> bool {
        true
    }

    open spec fn reads(pre: Self, offset: u64, size: u8, post: Self, value: u64) -> bool {
        true
    }

    open spec fn writes(pre: Self, offset: u64, size: u8, value: u64, post: Self) -> bool {
        true
    }

    fn read(&mut self, offset: u64, size: u8) -> (value: u64)
        requires
            old(self).inv(),
        ensures
            final(self).inv(),
            Self::reads(*old(self), offset, size, *final(self), value),
    ;

    fn write(&mut self, offset: u64, size: u8, value: u64)
        requires
            old(self).inv(),
        ensures
            final(self).inv(),
            Self::writes(*old(self), offset, size, value, *final(self)),
    ;
}

/// A type that may hold a `T`: how the host finds a device of a known type
/// behind a [`Bus`] (for example to drain the output of the UART).
pub trait Holds<T>: Sized {
    open spec fn held(&self) -> Option<T> {
        None
    }

    fn get(&self) -> (r: Option<&T>)
        ensures
            r is Some <==> Holds::<T>::held(self) is Some,
            r matches Some(t) ==> Holds::<T>::held(self) == Some(*t),
    ;

    fn get_mut(&mut self) -> (r: Option<&mut T>)
        ensures
            r is Some <==> Holds::<T>::held(&*old(self)) is Some,
            r matches Some(t) ==> Holds::<T>::held(&*old(self)) == Some(*t) && Holds::<T>::held(
                &*final(self),
            ) == Some(*final(t)),
            r is None ==> *final(self) == *old(self),
    ;
}

/// A device holds itself.
impl<T> Holds<T> for T {
    open spec fn held(&self) -> Option<T> {
        Some(*self)
    }

    fn get(&self) -> (r: Option<&T>) {
        Some(self)
    }

    fn get_mut(&mut self) -> (r: Option<&mut T>) {
        Some(self)
    }
}

/// Stable identifier of a mapped device (insertion order).
#[derive(Clone, Copy, Debug, PartialEq, Eq, Hash, Structural)]
pub struct DeviceId(pub usize);

#[derive(Clone, Debug, PartialEq, Eq)]
pub enum BusError {
    /// The region has size zero or runs past the end of the 64-bit space.
    InvalidRange { base: u64, size: u64 },
    /// The region overlaps one that is already mapped.
    Overlap { base: u64, size: u64, existing: &'static str },
}

impl BusError {
    pub open spec fn text(self) -> Seq<char> {
        match self {
            BusError::InvalidRange { base, size } => "intervallo non valido: base 0x"@
                + hexadecimal(base as nat) + ", dimensione 0x"@ + hexadecimal(size as nat),
            BusError::Overlap { base, size, existing } => "la regione 0x"@ + hexadecimal(
                base as nat,
            ) + "+0x"@ + hexadecimal(size as nat) + " si sovrappone a "@ + existing@,
        }
    }

    /// The error in words.
    pub fn to_string(&self) -> (r: String)
        ensures
            r@ == self.text(),
    {
        let mut s: String = String::new();
        match self {
            BusError::InvalidRange { base, size } => {
                push_text(&mut s, "intervallo non valido: base 0x");
                push_hexadecimal(&mut s, *base);
                push_text(&mut s, ", dimensione 0x");
                push_hexadecimal(&mut s, *size);
            },
            BusError::Overlap { base, size, existing } => {
                push_text(&mut s, "la regione 0x");
                push_hexadecimal(&mut s, *base);
                push_text(&mut s, "+0x");
                push_hexadecimal(&mut s, *size);
                push_text(&mut s, " si sovrappone a ");
                push_text(&mut s, existing);
            },
        }
        assert(s@ =~= self.text());
        s
    }
}

/// A mapped region: `[base, base + size)`, its name and its device.
pub struct Region<D> {
    pub base: u64,
    pub size: u64,
    pub name: &'static str,
    pub device: D,
}

impl<D> Region<D> {
    pub open spec fn valid(self) -> bool {
        0 < self.size && self.base + self.size <= u64::MAX
    }

    pub open spec fn overlaps(self, base: u64, size: u64) -> bool {
        base < self.base + self.size && self.base < base + size
    }

    /// The whole access of `size` bytes at `addr` lies in the region.
    pub open spec fn covers(self, addr: u64, size: u8) -> bool {
        self.base <= addr && addr + access_len(size) <= self.base + self.size
    }

    fn end(&self) -> (r: u64)
        requires
            self.valid(),
        ensures
            r == self.base + self.size,
    {
        self.base + self.size
    }
}

/// Bytes that an access of nominal size `size` touches (at least one).
pub open spec fn access_len(size: u8) -> int {
    if size == 0 { 1 } else { size as int }
}

/// MMIO bus. Regions do not overlap; a read or write must lie entirely inside
/// one region, otherwise it reaches nobody.
pub struct Bus<D> {
    /// Devices in insertion order (the index is the `DeviceId`).
    pub regions: Vec<Region<D>>,
    /// Indices of `regions` sorted by base, for the binary search.
    pub by_base: Vec<usize>,
}

impl<D> Bus<D> {
    /// Every region is valid, no two overlap, and `by_base` lists every region
    /// once, in order of base.
    pub open spec fn wf(self) -> bool {
        &&& forall|i: int| 0 <= i < self.regions@.len() ==> (#[trigger] self.regions@[i]).valid()
        &&& forall|i: int, j: int|
            0 <= i < self.regions@.len() && 0 <= j < self.regions@.len() && i != j
                ==> !(#[trigger] self.regions@[i]).overlaps(
                (#[trigger] self.regions@[j]).base,
                self.regions@[j].size,
            )
        &&& self.by_base@.len() == self.regions@.len()
        &&& forall|k: int|
            0 <= k < self.by_base@.len() ==> (#[trigger] self.by_base@[k]) < self.regions@.len()
        &&& forall|k: int, l: int|
            0 <= k < l < self.by_base@.len() ==> self.regions@[#[trigger] self.by_base@[k] as int].base
                < self.regions@[#[trigger] self.by_base@[l] as int].base
        &&& forall|i: int| 0 <= i < self.regions@.len() ==> #[trigger] self.indexed(i)
    }

    /// Region `i` appears in `by_base`.
    pub open spec fn indexed(self, i: int) -> bool {
        exists|k: int| 0 <= k < self.by_base@.len() && #[trigger] self.by_base@[k] == i
    }

    /// The access of `size` bytes at `addr` belongs to region `i`.
    pub open spec fn routes(self, addr: u64, size: u8, i: int) -> bool {
        0 <= i < self.regions@.len() && self.regions@[i].covers(addr, size)
    }

    /// No region takes the access.
    pub open spec fn unrouted(self, addr: u64, size: u8) -> bool {
        forall|i: int| !self.routes(addr, size, i)
    }

    /// Region `i` is the first, in insertion order, that overlaps the range.
    pub open spec fn first_overlap(self, base: u64, size: u64, i: int) -> bool {
        &&& 0 <= i < self.regions@.len()
        &&& self.regions@[i].overlaps(base, size)
        &&& forall|j: int| 0 <= j < i ==> !(#[trigger] self.regions@[j]).overlaps(base, size)
    }

    pub fn new() -> (r: Self)
        ensures
            r.wf(),
            r.regions@.len() == 0,
    {
        Bus { regions: Vec::new(), by_base: Vec::new() }
    }

    /// Number of entries of `by_base` whose region starts at or before `addr`.
    fn starts_until(&self, addr: u64) -> (pos: usize)
        requires
            self.wf(),
        ensures
            pos <= self.by_base@.len(),
            forall|k: int|
                0 <= k < pos ==> self.regions@[#[trigger] self.by_base@[k] as int].base <= addr,
            forall|k: int|
                pos <= k < self.by_base@.len() ==> self.regions@[#[trigger] self.by_base@[k] as int].base
                    > addr,
    {
        let mut lo: usize = 0;
        let mut hi: usize = self.by_base.len();
        while lo < hi
            invariant
                self.wf(),
                lo <= hi <= self.by_base@.len(),
                forall|k: int|
                    0 <= k < lo ==> self.regions@[#[trigger] self.by_base@[k] as int].base <= addr,
                forall|k: int|
                    hi <= k < self.by_base@.len()
                        ==> self.regions@[#[trigger] self.by_base@[k] as int].base > addr,
            decreases hi - lo,
        {
            let mid: usize = lo + (hi - lo) / 2;
            let i: usize = self.by_base[mid];
            if self.regions[i].base <= addr {
                lo = mid + 1;
            } else {
                hi = mid;
            }
        }
        lo
    }

    /// Maps `device` on `[base, base + size)`.
    pub fn map(&mut self, base: u64, size: u64, name: &'static str, device: D) -> (r: Result<
        DeviceId,
        BusError,
    >)
        requires
            old(self).wf(),
        ensures
            final(self).wf(),
            ({
                let invalid = size == 0 || base + size > u64::MAX;
                let clash = exists|i: int| old(self).first_overlap(base, size, i);
                match r {
                    Ok(id) => {
                        &&& !invalid && !clash
                        &&& id.0 == old(self).regions@.len()
                        &&& final(self).regions@ == old(self).regions@.push(
                            Region { base, size, name, device },
                        )
                    },
                    Err(BusError::InvalidRange { base: b, size: s }) => {
                        &&& invalid && b == base && s == size
                        &&& *final(self) == *old(self)
                    },
                    Err(BusError::Overlap { base: b, size: s, existing }) => {
                        &&& !invalid && b == base && s == size
                        &&& exists|i: int|
                            old(self).first_overlap(base, size, i) && existing
                                == old(self).regions@[i].name
                        &&& *final(self) == *old(self)
                    },
                }
            }),
    {
        if size == 0 || base.checked_add(size).is_none() {
            return Err(BusError::InvalidRange { base, size });
        }
        let end: u64 = base + size;
        let mut i: usize = 0;
        while i < self.regions.len()
            invariant
                self.wf(),
                *self == *old(self),
                end == base + size,
                i <= self.regions@.len(),
                0 < size,
                forall|j: int| 0 <= j < i ==> !(#[trigger] self.regions@[j]).overlaps(base, size),
            decreases self.regions@.len() - i,
        {
            if base < self.regions[i].end() && self.regions[i].base < end {
                assert(old(self).first_overlap(base, size, i as int));
                return Err(BusError::Overlap { base, size, existing: self.regions[i].name });
            }
            i += 1;
        }
        let id: usize = self.regions.len();
        let pos: usize = self.starts_until(base);
        let ghost before = *self;
        self.regions.push(Region { base, size, name, device });
        self.by_base.insert(pos, id);
        proof {
            assert forall|i: int| 0 <= i < self.regions@.len() implies #[trigger] self.indexed(i) by {
                if i == id {
                    assert(self.by_base@[pos as int] == i);
                } else {
                    assert(before.indexed(i));
                    let k = choose|k: int|
                        0 <= k < before.by_base@.len() && #[trigger] before.by_base@[k] == i;
                    if k < pos {
                        assert(self.by_base@[k] == i);
                    } else {
                        assert(self.by_base@[k + 1] == i);
                    }
                }
            }
            assert forall|k: int| 0 <= k < pos implies before.regions@[#[trigger] before.by_base@[k] as int].base
                < base by {
                let j = before.by_base@[k] as int;
                assert(!before.regions@[j].overlaps(base, size));
            }
        }
        Ok(DeviceId(id))
    }

    /// Device and offset for an access of `size` bytes at `addr`.
    pub fn find(&self, addr: u64, size: u8) -> (r: Option<(DeviceId, u64)>)
        requires
            self.wf(),
        ensures
            match r {
                Some((id, offset)) => self.routes(addr, size, id.0 as int) && offset == addr
                    - self.regions@[id.0 as int].base,
                None => self.unrouted(addr, size),
            },
    {
        let pos: usize = self.starts_until(addr);
        proof {
            // The only candidate is the last region that starts at or before `addr`.
            assert forall|i: int| self.routes(addr, size, i) implies 0 < pos && i == self.by_base@[pos
                - 1] by {
                assert(self.indexed(i));
                let k = choose|k: int| 0 <= k < self.by_base@.len() && #[trigger] self.by_base@[k] == i;
                assert(k < pos);
                if k < pos - 1 {
                    let j = self.by_base@[pos - 1] as int;
                    assert(self.regions@[i].base < self.regions@[j].base);
                    assert(!self.regions@[i].overlaps(self.regions@[j].base, self.regions@[j].size));
                }
            }
        }
        if pos == 0 {
            return None;
        }
        let idx: usize = self.by_base[pos - 1];
        let n: u64 = if size == 0 { 1 } else { size as u64 };
        match addr.checked_add(n - 1) {
            Some(last) => if last < self.regions[idx].end() {
                Some((DeviceId(idx), addr - self.regions[idx].base))
            } else {
                None
            },
            None => None,
        }
    }

    /// Name, base and size of a region.
    pub fn region(&self, id: DeviceId) -> (r: Option<(&'static str, u64, u64)>)
        ensures
            r == (if id.0 < self.regions@.len() {
                let g = self.regions@[id.0 as int];
                Some((g.name, g.base, g.size))
            } else {
                None
            }),
    {
        if id.0 < self.regions.len() {
            let g = &self.regions[id.0];
            Some((g.name, g.base, g.size))
        } else {
            None
        }
    }

    /// Typed access to a mapped device.
    pub fn device<T>(&self, id: DeviceId) -> (r: Option<&T>) where D: Holds<T>
        ensures
            match r {
                Some(t) => id.0 < self.regions@.len() && Holds::<T>::held(&self.regions@[id.0 as int].device)
                    == Some(*t),
                None => id.0 >= self.regions@.len() || Holds::<T>::held(&self.regions@[id.0 as int].device)
                    is None,
            },
    {
        if id.0 < self.regions.len() {
            Holds::<T>::get(&self.regions[id.0].device)
        } else {
            None
        }
    }

    /// Typed, mutable access to a mapped device. Only the device can change.
    pub fn device_mut<T>(&mut self, id: DeviceId) -> (r: Option<&mut T>) where D: Holds<T>
        ensures
            match r {
                Some(t) => {
                    let i = id.0 as int;
                    &&& i < old(self).regions@.len()
                    &&& Holds::<T>::held(&old(self).regions@[i].device) == Some(*t)
                    &&& Holds::<T>::held(&final(self).regions@[i].device) == Some(*final(t))
                    &&& old(self).same_but(*final(self), i)
                },
                None => {
                    &&& id.0 >= old(self).regions@.len() || Holds::<T>::held(&old(self).regions@[id.0 as int].device) is None
                    &&& final(self).regions@ == old(self).regions@
                    &&& final(self).by_base@ == old(self).by_base@
                },
            },
    {
        if id.0 < self.regions.len() {
            Holds::<T>::get_mut(&mut self.regions[id.0].device)
        } else {
            None
        }
    }

    /// The two buses differ at most in the device of region `i`.
    pub open spec fn same_but(self, other: Self, i: int) -> bool {
        &&& other.by_base@ == self.by_base@
        &&& other.regions@.len() == self.regions@.len()
        &&& forall|j: int|
            0 <= j < self.regions@.len() && j != i ==> #[trigger] other.regions@[j] == self.regions@[j]
        &&& 0 <= i < self.regions@.len() ==> other.regions@[i] == (Region {
            device: other.regions@[i].device,
            ..self.regions@[i]
        })
    }
}

impl<D> Default for Bus<D> {
    fn default() -> (r: Self)
        ensures
            r.wf(),
            r.regions@.len() == 0,
    {
        Bus::new()
    }
}

impl<D: MmioDevice> Bus<D> {
    /// Every mapped device is in a state in which it takes accesses.
    pub open spec fn devices_inv(self) -> bool {
        forall|i: int| 0 <= i < self.regions@.len() ==> (#[trigger] self.regions@[i]).device.inv()
    }

    /// MMIO read. `None` if no device covers the access: the CPU treats it as
    /// an outside error.
    pub fn read(&mut self, addr: u64, size: u8) -> (r: Option<u64>)
        requires
            old(self).wf(),
            old(self).devices_inv(),
        ensures
            final(self).wf(),
            final(self).devices_inv(),
            match r {
                Some(v) => exists|i: int, raw: u64|
                    {
                        &&& old(self).routes(addr, size, i)
                        &&& old(self).same_but(*final(self), i)
                        &&& #[trigger] D::reads(
                            old(self).regions@[i].device,
                            (addr - old(self).regions@[i].base) as u64,
                            size,
                            final(self).regions@[i].device,
                            raw,
                        )
                        &&& v == raw & spec_size_mask(size)
                    },
                None => old(self).unrouted(addr, size) && *final(self) == *old(self),
            },
    {
        match self.find(addr, size) {
            Some((id, off)) => {
                let i: usize = id.0;
                let ghost before = *self;
                let raw: u64 = self.regions[i].device.read(off, size);
                proof {
                    assert(before.same_but(*self, i as int));
                    lemma_same_but_wf(before, *self, i as int);
                    assert(off == (addr - before.regions@[i as int].base) as u64);
                    assert(D::reads(
                        before.regions@[i as int].device,
                        (addr - before.regions@[i as int].base) as u64,
                        size,
                        self.regions@[i as int].device,
                        raw,
                    ));
                }
                Some(raw & size_mask(size))
            },
            None => None,
        }
    }

    /// MMIO write. `false` if no device covers the access.
    pub fn write(&mut self, addr: u64, size: u8, value: u64) -> (r: bool)
        requires
            old(self).wf(),
            old(self).devices_inv(),
        ensures
            final(self).wf(),
            final(self).devices_inv(),
            if r {
                exists|i: int|
                    {
                        &&& old(self).routes(addr, size, i)
                        &&& #[trigger] old(self).same_but(*final(self), i)
                        &&& D::writes(
                            old(self).regions@[i].device,
                            (addr - old(self).regions@[i].base) as u64,
                            size,
                            value & spec_size_mask(size),
                            final(self).regions@[i].device,
                        )
                    }
            } else {
                old(self).unrouted(addr, size) && *final(self) == *old(self)
            },
    {
        match self.find(addr, size) {
            Some((id, off)) => {
                let i: usize = id.0;
                let ghost before = *self;
                self.regions[i].device.write(off, size, value & size_mask(size));
                proof {
                    assert(before.same_but(*self, i as int));
                    lemma_same_but_wf(before, *self, i as int);
                }
                true
            },
            None => false,
        }
    }
}

/// Changing one device keeps the bus well formed.
pub proof fn lemma_same_but_wf<D>(pre: Bus<D>, post: Bus<D>, i: int)
    requires
        pre.wf(),
        pre.same_but(post, i),
    ensures
        post.wf(),
{
    assert forall|j: int| 0 <= j < post.regions@.len() implies (#[trigger] post.regions@[j]).valid()
        && post.regions@[j].base == pre.regions@[j].base && post.regions@[j].size
        == pre.regions@[j].size by {
        assert(pre.regions@[j].valid());
    }
    assert forall|j: int| 0 <= j < post.regions@.len() implies #[trigger] post.indexed(j) by {
        assert(pre.indexed(j));
    }
    assert forall|a: int, b: int|
        0 <= a < post.regions@.len() && 0 <= b < post.regions@.len() && a != b implies !(
    #[trigger] post.regions@[a]).overlaps((#[trigger] post.regions@[b]).base, post.regions@[b].size) by {
        assert(!pre.regions@[a].overlaps(pre.regions@[b].base, pre.regions@[b].size));
    }
    assert forall|k: int, l: int| 0 <= k < l < post.by_base@.len() implies post.regions@[
    #[trigger] post.by_base@[k] as int].base < post.regions@[#[trigger] post.by_base@[l] as int].base by {
        assert(pre.regions@[pre.by_base@[k] as int].base < pre.regions@[pre.by_base@[l] as int].base);
    }
}

/// An access reaches at most one region.
pub proof fn law_route_is_unique<D>(bus: Bus<D>, addr: u64, size: u8, i: int, j: int)
    requires
        bus.wf(),
        bus.routes(addr, size, i),
        bus.routes(addr, size, j),
    ensures
        i == j,
{
    if i != j {
        assert(!bus.regions@[i].overlaps(bus.regions@[j].base, bus.regions@[j].size));
    }
}

pub open spec fn spec_size_mask(size: u8) -> u64 {
    match size {
        1 => 0xFF,
        2 => 0xFFFF,
        4 => 0xFFFF_FFFF,
        _ => u64::MAX,
    }
}

/// Mask of the valid bits of an access of `size` bytes.
pub fn size_mask(size: u8) -> (r: u64)
    ensures
        r == spec_size_mask(size),
{
    match size {
        1 => 0xFF,
        2 => 0xFFFF,
        4 => 0xFFFF_FFFF,
        _ => u64::MAX,
    }
}

pub open spec fn spec_sub_word(word: u32, offset: u64, size: u8) -> u64 {
    ((word as u64) >> ((offset % 4) * 8) as u64) & spec_size_mask(size)
}

/// The bytes that an access of 1, 2 or 4 bytes at `offset` sees of the aligned
/// 32-bit register that holds `word`, moved down to bit 0.
pub fn sub_word(word: u32, offset: u64, size: u8) -> (r: u64)
    ensures
        r == spec_sub_word(word, offset, size),
{
    let shift: u64 = (offset % 4) * 8;
    ((word as u64) >> shift) & size_mask(size)
}

} // verus!
