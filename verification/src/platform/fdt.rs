//! Generator of binary device trees (FDT/DTB version 17) and the device tree of
//! the virt platform.
//!
//! Layout: header (40 bytes), memory reservations, structure block, strings
//! block. All numbers are big endian; the names of the properties appear once in
//! the strings block.
use vstd::prelude::*;
use vstd::utf8::encode_utf8;
use crate::bytes::{be32_bytes, be64_bytes, push_be32, push_be64, push_bytes, push_zeros, same_bytes, to_vec, zeros};
use crate::text::{count, debug_text, push_count, push_text, quoted_text};

pub use crate::platform::virt_tree::{PHANDLE_CLK, PHANDLE_GIC, PHANDLE_GPIO, QEMU_FDT_SIZE, UART_NODE, VirtDtbConfig, virt_dtb};

verus! {

pub const FDT_MAGIC: u32 = 0xD00D_FEED;
pub const FDT_VERSION: u32 = 17;
pub const FDT_LAST_COMP_VERSION: u32 = 16;
pub const FDT_BEGIN_NODE: u32 = 1;
pub const FDT_END_NODE: u32 = 2;
pub const FDT_PROP: u32 = 3;
pub const FDT_END: u32 = 9;
/// Size of the header of version 17.
pub const HEADER_SIZE: usize = 40;

#[derive(Clone, Debug, PartialEq, Eq)]
pub enum FdtError {
    /// Name of a node or a property that is empty where it must not be, or that
    /// has a NUL.
    InvalidName(String),
    /// Property outside every node.
    PropertyOutsideNode(String),
    /// `end_node` without its `begin_node`.
    UnmatchedEnd,
    /// `finish` with nodes still open.
    UnclosedNodes(usize),
    /// No root node.
    Empty,
    /// More than one root node.
    MultipleRoots,
}

/// What an [`FdtError`] says.
pub enum Flaw {
    InvalidName(Seq<char>),
    PropertyOutsideNode(Seq<char>),
    UnmatchedEnd,
    UnclosedNodes(usize),
    Empty,
    MultipleRoots,
}

impl View for FdtError {
    type V = Flaw;

    open spec fn view(&self) -> Flaw {
        match self {
            FdtError::InvalidName(n) => Flaw::InvalidName(n@),
            FdtError::PropertyOutsideNode(n) => Flaw::PropertyOutsideNode(n@),
            FdtError::UnmatchedEnd => Flaw::UnmatchedEnd,
            FdtError::UnclosedNodes(n) => Flaw::UnclosedNodes(*n),
            FdtError::Empty => Flaw::Empty,
            FdtError::MultipleRoots => Flaw::MultipleRoots,
        }
    }
}

impl Flaw {
    pub open spec fn text(self) -> Seq<char> {
        match self {
            Flaw::InvalidName(n) => "nome non valido: "@ + quoted_text(n),
            Flaw::PropertyOutsideNode(n) => "proprietà "@ + quoted_text(n) + " fuori da un nodo"@,
            Flaw::UnmatchedEnd => "end_node senza begin_node"@,
            Flaw::UnclosedNodes(n) => count(n) + " nodi ancora aperti"@,
            Flaw::Empty => "device tree senza radice"@,
            Flaw::MultipleRoots => "più di un nodo radice"@,
        }
    }
}

/// A copy of a text.
fn copied(s: &str) -> (r: String)
    ensures
        r@ == s@,
{
    let mut t: String = String::new();
    push_text(&mut t, s);
    assert(t@ =~= s@);
    t
}

impl FdtError {
    /// The error in words.
    pub fn to_string(&self) -> (r: String)
        ensures
            r@ == self@.text(),
    {
        let mut s: String = String::new();
        match self {
            FdtError::InvalidName(n) => {
                push_text(&mut s, "nome non valido: ");
                let q: String = debug_text(n.as_str());
                push_text(&mut s, q.as_str());
            },
            FdtError::PropertyOutsideNode(n) => {
                push_text(&mut s, "proprietà ");
                let q: String = debug_text(n.as_str());
                push_text(&mut s, q.as_str());
                push_text(&mut s, " fuori da un nodo");
            },
            FdtError::UnmatchedEnd => push_text(&mut s, "end_node senza begin_node"),
            FdtError::UnclosedNodes(n) => {
                push_count(&mut s, *n);
                push_text(&mut s, " nodi ancora aperti");
            },
            FdtError::Empty => push_text(&mut s, "device tree senza radice"),
            FdtError::MultipleRoots => push_text(&mut s, "più di un nodo radice"),
        }
        assert(s@ =~= self@.text());
        s
    }

    fn copy(&self) -> (r: Self)
        ensures
            r@ == self@,
    {
        match self {
            FdtError::InvalidName(n) => FdtError::InvalidName(copied(n.as_str())),
            FdtError::PropertyOutsideNode(n) => FdtError::PropertyOutsideNode(copied(n.as_str())),
            FdtError::UnmatchedEnd => FdtError::UnmatchedEnd,
            FdtError::UnclosedNodes(n) => FdtError::UnclosedNodes(*n),
            FdtError::Empty => FdtError::Empty,
            FdtError::MultipleRoots => FdtError::MultipleRoots,
        }
    }
}

/// Builder of a DTB. The methods can be chained; the first error is kept and
/// returned by [`FdtBuilder::finish`].
#[derive(Debug, Default)]
pub struct FdtBuilder {
    pub structs: Vec<u8>,
    /// Names of the properties, in the order of their first use.
    pub names: Vec<Vec<u8>>,
    pub reserve: Vec<(u64, u64)>,
    pub boot_cpuid: u32,
    pub depth: usize,
    pub roots: usize,
    pub error: Option<FdtError>,
}

/// What an [`FdtBuilder`] holds.
#[verifier::ext_equal]
pub struct Fdt {
    pub structs: Seq<u8>,
    pub names: Seq<Seq<u8>>,
    pub reserve: Seq<(u64, u64)>,
    pub boot_cpuid: u32,
    pub depth: usize,
    pub roots: usize,
    pub error: Option<Flaw>,
}

pub open spec fn names_view(s: Seq<Vec<u8>>) -> Seq<Seq<u8>> {
    s.map_values(|n: Vec<u8>| n@)
}

impl View for FdtBuilder {
    type V = Fdt;

    open spec fn view(&self) -> Fdt {
        Fdt {
            structs: self.structs@,
            names: names_view(self.names@),
            reserve: self.reserve@,
            boot_cpuid: self.boot_cpuid,
            depth: self.depth,
            roots: self.roots,
            error: match self.error {
                Some(e) => Some(e@),
                None => None,
            },
        }
    }
}

/// `s` filled with zeros to a multiple of 4.
pub open spec fn aligned(s: Seq<u8>) -> Seq<u8> {
    s + zeros(((4 - s.len() % 4) % 4) as nat)
}

/// The strings block: every name with its NUL.
pub open spec fn strings_block(names: Seq<Seq<u8>>) -> Seq<u8>
    decreases names.len(),
{
    if names.len() == 0 {
        Seq::empty()
    } else {
        strings_block(names.drop_last()) + names.last() + seq![0u8]
    }
}

/// Where the name stands in the list (its length if it does not).
pub open spec fn name_index(names: Seq<Seq<u8>>, name: Seq<u8>) -> nat
    decreases names.len(),
{
    if names.len() == 0 || names[0] == name {
        0
    } else {
        1 + name_index(names.skip(1), name)
    }
}

/// The list with the name in it.
pub open spec fn with_name(names: Seq<Seq<u8>>, name: Seq<u8>) -> Seq<Seq<u8>> {
    if name_index(names, name) < names.len() {
        names
    } else {
        names.push(name)
    }
}

/// Offset of the name in the strings block.
pub open spec fn name_offset(names: Seq<Seq<u8>>, name: Seq<u8>) -> u32 {
    strings_block(names.take(name_index(names, name) as int)).len() as u32
}

/// Numbers of 32 bits one after another.
pub open spec fn cells32(vs: Seq<u32>) -> Seq<u8>
    decreases vs.len(),
{
    if vs.len() == 0 {
        Seq::empty()
    } else {
        cells32(vs.drop_last()) + be32_bytes(vs.last())
    }
}

/// Numbers of 64 bits one after another.
pub open spec fn cells64(vs: Seq<u64>) -> Seq<u8>
    decreases vs.len(),
{
    if vs.len() == 0 {
        Seq::empty()
    } else {
        cells64(vs.drop_last()) + be64_bytes(vs.last())
    }
}

/// Texts one after another, each with its NUL.
pub open spec fn texts(ss: Seq<Seq<char>>) -> Seq<u8>
    decreases ss.len(),
{
    if ss.len() == 0 {
        Seq::empty()
    } else {
        texts(ss.drop_last()) + encode_utf8(ss.last()) + seq![0u8]
    }
}

/// The reservations one after another.
pub open spec fn reserve_block(rs: Seq<(u64, u64)>) -> Seq<u8>
    decreases rs.len(),
{
    if rs.len() == 0 {
        Seq::empty()
    } else {
        reserve_block(rs.drop_last()) + be64_bytes(rs.last().0) + be64_bytes(rs.last().1)
    }
}

impl Fdt {
    pub open spec fn blank() -> Fdt {
        Fdt {
            structs: Seq::empty(),
            names: Seq::empty(),
            reserve: Seq::empty(),
            boot_cpuid: 0,
            depth: 0,
            roots: 0,
            error: None,
        }
    }

    /// The first error stays.
    pub open spec fn failed(self, e: Flaw) -> Fdt {
        if self.error is Some {
            self
        } else {
            Fdt { error: Some(e), ..self }
        }
    }

    /// A node opens.
    #[verifier::opaque]
    pub open spec fn begun(self, name: Seq<char>) -> Fdt {
        let s = if name.contains('\0') || (name.len() == 0) != (self.depth == 0) {
            self.failed(Flaw::InvalidName(name))
        } else {
            self
        };
        let s = if self.depth == 0 {
            let t = if self.roots > 0 {
                s.failed(Flaw::MultipleRoots)
            } else {
                s
            };
            Fdt { roots: t.roots.wrapping_add(1), ..t }
        } else {
            s
        };
        Fdt {
            structs: aligned(
                s.structs + be32_bytes(FDT_BEGIN_NODE) + encode_utf8(name) + seq![0u8],
            ),
            depth: s.depth.wrapping_add(1),
            ..s
        }
    }

    /// A node closes.
    #[verifier::opaque]
    pub open spec fn ended(self) -> Fdt {
        if self.depth == 0 {
            self.failed(Flaw::UnmatchedEnd)
        } else {
            Fdt {
                structs: self.structs + be32_bytes(FDT_END_NODE),
                depth: (self.depth - 1) as usize,
                ..self
            }
        }
    }

    /// A property.
    #[verifier::opaque]
    pub open spec fn prop(self, name: Seq<char>, v: Seq<u8>) -> Fdt {
        let s = if name.len() == 0 || name.contains('\0') {
            self.failed(Flaw::InvalidName(name))
        } else {
            self
        };
        let s = if self.depth == 0 {
            s.failed(Flaw::PropertyOutsideNode(name))
        } else {
            s
        };
        let b = encode_utf8(name);
        Fdt {
            structs: aligned(
                s.structs + be32_bytes(FDT_PROP) + be32_bytes(v.len() as u32) + be32_bytes(
                    name_offset(s.names, b),
                ) + v,
            ),
            names: with_name(s.names, b),
            ..s
        }
    }

    pub open spec fn prop_u32(self, name: Seq<char>, v: u32) -> Fdt {
        self.prop(name, be32_bytes(v))
    }

    pub open spec fn prop_u64(self, name: Seq<char>, v: u64) -> Fdt {
        self.prop(name, be64_bytes(v))
    }

    pub open spec fn prop_empty(self, name: Seq<char>) -> Fdt {
        self.prop(name, Seq::empty())
    }

    pub open spec fn prop_u32s(self, name: Seq<char>, vs: Seq<u32>) -> Fdt {
        self.prop(name, cells32(vs))
    }

    pub open spec fn prop_u64s(self, name: Seq<char>, vs: Seq<u64>) -> Fdt {
        self.prop(name, cells64(vs))
    }

    /// The texts with a NUL inside are errors.
    pub open spec fn checked(self, ss: Seq<Seq<char>>) -> Fdt
        decreases ss.len(),
    {
        if ss.len() == 0 {
            self
        } else {
            let s = self.checked(ss.drop_last());
            if ss.last().contains('\0') {
                s.failed(Flaw::InvalidName(ss.last()))
            } else {
                s
            }
        }
    }

    pub open spec fn prop_strs(self, name: Seq<char>, ss: Seq<Seq<char>>) -> Fdt {
        self.checked(ss).prop(name, texts(ss))
    }

    pub open spec fn prop_str(self, name: Seq<char>, s: Seq<char>) -> Fdt {
        self.prop_strs(name, seq![s])
    }

    /// The blob: header, reservations, structure, strings.
    pub open spec fn blob(self) -> Seq<u8> {
        let strings = strings_block(self.names);
        let off_struct = 40 + (self.reserve.len() + 1) * 16;
        let size_struct = self.structs.len() + 4;
        let off_strings = off_struct + size_struct;
        let total = off_strings + strings.len();
        be32_bytes(FDT_MAGIC) + be32_bytes(total as u32) + be32_bytes(off_struct as u32)
            + be32_bytes(off_strings as u32) + be32_bytes(40) + be32_bytes(FDT_VERSION)
            + be32_bytes(FDT_LAST_COMP_VERSION) + be32_bytes(self.boot_cpuid) + be32_bytes(
            strings.len() as u32,
        ) + be32_bytes(size_struct as u32) + reserve_block(self.reserve.push((0, 0)))
            + self.structs + be32_bytes(FDT_END) + strings
    }

    /// What `finish` gives.
    pub open spec fn finished(self) -> Result<Seq<u8>, Flaw> {
        match self.error {
            Some(e) => Err(e),
            None => if self.depth != 0 {
                Err(Flaw::UnclosedNodes(self.depth))
            } else if self.roots == 0 {
                Err(Flaw::Empty)
            } else {
                Ok(self.blob())
            },
        }
    }

    /// No error so far, one root, and `depth` nodes open.
    pub open spec fn sound(self, depth: int) -> bool {
        self.error is None && self.roots == 1 && self.depth == depth
    }
}

/// The text has a NUL.
fn has_nul(s: &str) -> (r: bool)
    ensures
        r == s@.contains('\0'),
{
    let n: usize = s.unicode_len();
    let mut i: usize = 0;
    while i < n
        invariant
            n == s@.len(),
            i <= n,
            forall|k: int| 0 <= k < i ==> s@[k] != '\0',
        decreases n - i,
    {
        if s.get_char(i) == '\0' {
            return true;
        }
        i += 1;
    }
    false
}

pub open spec fn strs_view(ss: Seq<&str>) -> Seq<Seq<char>> {
    ss.map_values(|s: &str| s@)
}

impl FdtBuilder {
    pub fn new() -> (r: Self)
        ensures
            r@ == Fdt::blank(),
    {
        let r = FdtBuilder {
            structs: Vec::new(),
            names: Vec::new(),
            reserve: Vec::new(),
            boot_cpuid: 0,
            depth: 0,
            roots: 0,
            error: None,
        };
        assert(r@ =~= Fdt::blank());
        r
    }

    fn fail(&mut self, e: FdtError)
        ensures
            final(self)@ == old(self)@.failed(e@),
    {
        if self.error.is_none() {
            self.error = Some(e);
        }
    }

    fn pad(&mut self)
        ensures
            final(self)@ == (Fdt { structs: aligned(old(self)@.structs), ..old(self)@ }),
    {
        let n: usize = (4 - self.structs.len() % 4) % 4;
        push_zeros(&mut self.structs, n);
    }

    /// Adds a reserved region.
    pub fn reserve_memory(&mut self, addr: u64, size: u64) -> (r: &mut Self)
        ensures
            r@ == (Fdt { reserve: old(self)@.reserve.push((addr, size)), ..old(self)@ }),
            *final(self) == *final(r),
    {
        self.reserve.push((addr, size));
        self
    }

    /// `boot_cpuid_phys` of the header.
    pub fn boot_cpuid(&mut self, id: u32) -> (r: &mut Self)
        ensures
            r@ == (Fdt { boot_cpuid: id, ..old(self)@ }),
            *final(self) == *final(r),
    {
        self.boot_cpuid = id;
        self
    }

    fn begin(&mut self, name: &str)
        ensures
            final(self)@ == old(self)@.begun(name@),
    {
        reveal(Fdt::begun);
        let empty: bool = name.unicode_len() == 0;
        let ghost before = self@;
        if has_nul(name) || empty != (self.depth == 0) {
            self.fail(FdtError::InvalidName(copied(name)));
        }
        if self.depth == 0 {
            if self.roots > 0 {
                self.fail(FdtError::MultipleRoots);
            }
            self.roots = self.roots.wrapping_add(1);
        }
        push_be32(&mut self.structs, FDT_BEGIN_NODE);
        push_bytes(&mut self.structs, name.as_bytes());
        self.structs.push(0);
        assert(self.structs@ =~= before.structs + be32_bytes(FDT_BEGIN_NODE) + encode_utf8(name@)
            + seq![0u8]);
        self.pad();
        self.depth = self.depth.wrapping_add(1);
    }

    /// Opens a node. The root has an empty name; the others have not.
    pub fn begin_node(&mut self, name: &str) -> (r: &mut Self)
        ensures
            r@ == old(self)@.begun(name@),
            *final(self) == *final(r),
    {
        self.begin(name);
        self
    }

    fn end(&mut self)
        ensures
            final(self)@ == old(self)@.ended(),
    {
        reveal(Fdt::ended);
        if self.depth == 0 {
            self.fail(FdtError::UnmatchedEnd);
            return;
        }
        push_be32(&mut self.structs, FDT_END_NODE);
        self.depth = self.depth - 1;
    }

    pub fn end_node(&mut self) -> (r: &mut Self)
        ensures
            r@ == old(self)@.ended(),
            *final(self) == *final(r),
    {
        self.end();
        self
    }

    /// Offset of the name in the strings block; the name is added if it is new.
    fn string_offset(&mut self, name: &[u8]) -> (r: u32)
        ensures
            r == name_offset(old(self)@.names, name@),
            final(self)@ == (Fdt { names: with_name(old(self)@.names, name@), ..old(self)@ }),
    {
        let ghost names = self@.names;
        let mut i: usize = 0;
        let mut off: u128 = 0;
        assert(names.skip(0) =~= names);
        assert(names.take(0) =~= Seq::<Seq<u8>>::empty());
        while i < self.names.len()
            invariant
                *self == *old(self),
                names == self@.names,
                i <= names.len() == self.names@.len(),
                off == strings_block(names.take(i as int)).len(),
                off <= i * 0x1_0000_0000_0000_0000,
                name_index(names, name@) == i + name_index(names.skip(i as int), name@),
            decreases self.names@.len() - i,
        {
            let n: &Vec<u8> = &self.names[i];
            assert(names[i as int] == n@);
            assert(names.skip(i as int)[0] == n@);
            assert(names.skip(i as int).skip(1) =~= names.skip(i + 1));
            if same_bytes(n.as_slice(), name) {
                return off as u32;
            }
            assert(names.take(i + 1).drop_last() =~= names.take(i as int));
            off = off + n.len() as u128 + 1;
            i += 1;
        }
        assert(names.take(i as int) =~= names);
        self.names.push(to_vec(name));
        assert(self@.names =~= names.push(name@));
        off as u32
    }

    fn put(&mut self, name: &str, v: &[u8])
        ensures
            final(self)@ == old(self)@.prop(name@, v@),
    {
        reveal(Fdt::prop);
        let empty: bool = name.unicode_len() == 0;
        if empty || has_nul(name) {
            self.fail(FdtError::InvalidName(copied(name)));
        }
        if self.depth == 0 {
            self.fail(FdtError::PropertyOutsideNode(copied(name)));
        }
        let ghost before = self@;
        let off: u32 = self.string_offset(name.as_bytes());
        push_be32(&mut self.structs, FDT_PROP);
        push_be32(&mut self.structs, v.len() as u32);
        push_be32(&mut self.structs, off);
        push_bytes(&mut self.structs, v);
        assert(self.structs@ =~= before.structs + be32_bytes(FDT_PROP) + be32_bytes(
            v@.len() as u32,
        ) + be32_bytes(off) + v@);
        self.pad();
    }

    /// A property with raw contents.
    pub fn prop_bytes(&mut self, name: &str, value: &[u8]) -> (r: &mut Self)
        ensures
            r@ == old(self)@.prop(name@, value@),
            *final(self) == *final(r),
    {
        self.put(name, value);
        self
    }

    fn put_empty(&mut self, name: &str)
        ensures
            final(self)@ == old(self)@.prop_empty(name@),
    {
        let none: Vec<u8> = Vec::new();
        self.put(name, none.as_slice());
    }

    /// A property without contents, for example `interrupt-controller`.
    pub fn prop_empty(&mut self, name: &str) -> (r: &mut Self)
        ensures
            r@ == old(self)@.prop_empty(name@),
            *final(self) == *final(r),
    {
        self.put_empty(name);
        self
    }

    fn put_u32(&mut self, name: &str, v: u32)
        ensures
            final(self)@ == old(self)@.prop_u32(name@, v),
    {
        let mut b: Vec<u8> = Vec::new();
        push_be32(&mut b, v);
        assert(b@ =~= be32_bytes(v));
        self.put(name, b.as_slice());
    }

    pub fn prop_u32(&mut self, name: &str, v: u32) -> (r: &mut Self)
        ensures
            r@ == old(self)@.prop_u32(name@, v),
            *final(self) == *final(r),
    {
        self.put_u32(name, v);
        self
    }

    fn put_u64(&mut self, name: &str, v: u64)
        ensures
            final(self)@ == old(self)@.prop_u64(name@, v),
    {
        let mut b: Vec<u8> = Vec::new();
        push_be64(&mut b, v);
        assert(b@ =~= be64_bytes(v));
        self.put(name, b.as_slice());
    }

    pub fn prop_u64(&mut self, name: &str, v: u64) -> (r: &mut Self)
        ensures
            r@ == old(self)@.prop_u64(name@, v),
            *final(self) == *final(r),
    {
        self.put_u64(name, v);
        self
    }

    fn put_u32s(&mut self, name: &str, vs: &[u32])
        ensures
            final(self)@ == old(self)@.prop_u32s(name@, vs@),
    {
        let mut b: Vec<u8> = Vec::new();
        let mut i: usize = 0;
        assert(vs@.take(0) =~= Seq::<u32>::empty());
        while i < vs.len()
            invariant
                i <= vs@.len(),
                b@ == cells32(vs@.take(i as int)),
            decreases vs@.len() - i,
        {
            assert(vs@.take(i + 1).drop_last() =~= vs@.take(i as int));
            push_be32(&mut b, vs[i]);
            i += 1;
        }
        assert(vs@.take(i as int) =~= vs@);
        self.put(name, b.as_slice());
    }

    pub fn prop_u32_list(&mut self, name: &str, vs: &[u32]) -> (r: &mut Self)
        ensures
            r@ == old(self)@.prop_u32s(name@, vs@),
            *final(self) == *final(r),
    {
        self.put_u32s(name, vs);
        self
    }

    fn put_u64s(&mut self, name: &str, vs: &[u64])
        ensures
            final(self)@ == old(self)@.prop_u64s(name@, vs@),
    {
        let mut b: Vec<u8> = Vec::new();
        let mut i: usize = 0;
        assert(vs@.take(0) =~= Seq::<u64>::empty());
        while i < vs.len()
            invariant
                i <= vs@.len(),
                b@ == cells64(vs@.take(i as int)),
            decreases vs@.len() - i,
        {
            assert(vs@.take(i + 1).drop_last() =~= vs@.take(i as int));
            push_be64(&mut b, vs[i]);
            i += 1;
        }
        assert(vs@.take(i as int) =~= vs@);
        self.put(name, b.as_slice());
    }

    /// A list of numbers of 64 bits, each as two cells.
    pub fn prop_u64_list(&mut self, name: &str, vs: &[u64]) -> (r: &mut Self)
        ensures
            r@ == old(self)@.prop_u64s(name@, vs@),
            *final(self) == *final(r),
    {
        self.put_u64s(name, vs);
        self
    }

    fn put_strs(&mut self, name: &str, ss: &[&str])
        ensures
            final(self)@ == old(self)@.prop_strs(name@, strs_view(ss@)),
    {
        let mut b: Vec<u8> = Vec::new();
        let ghost all = strs_view(ss@);
        let ghost before = self@;
        let mut i: usize = 0;
        assert(all.take(0) =~= Seq::<Seq<char>>::empty());
        while i < ss.len()
            invariant
                i <= ss@.len(),
                all == strs_view(ss@),
                b@ == texts(all.take(i as int)),
                self@ == before.checked(all.take(i as int)),
            decreases ss@.len() - i,
        {
            let s: &str = ss[i];
            assert(all[i as int] == s@);
            assert(all.take(i + 1).drop_last() =~= all.take(i as int));
            if has_nul(s) {
                self.fail(FdtError::InvalidName(copied(s)));
            }
            let ghost b0 = b@;
            push_bytes(&mut b, s.as_bytes());
            b.push(0);
            assert(b@ =~= b0 + encode_utf8(s@) + seq![0u8]);
            i += 1;
        }
        assert(all.take(i as int) =~= all);
        self.put(name, b.as_slice());
    }

    fn put_str(&mut self, name: &str, s: &str)
        ensures
            final(self)@ == old(self)@.prop_str(name@, s@),
    {
        let one: [&str; 1] = [s];
        assert(strs_view(one@) =~= seq![s@]);
        self.put_strs(name, &one);
    }

    pub fn prop_str(&mut self, name: &str, s: &str) -> (r: &mut Self)
        ensures
            r@ == old(self)@.prop_str(name@, s@),
            *final(self) == *final(r),
    {
        self.put_str(name, s);
        self
    }

    /// A list of texts with a NUL at the end of each, for example `compatible`.
    pub fn prop_strs(&mut self, name: &str, ss: &[&str]) -> (r: &mut Self)
        ensures
            r@ == old(self)@.prop_strs(name@, strs_view(ss@)),
            *final(self) == *final(r),
    {
        self.put_strs(name, ss);
        self
    }

    fn strings(&self) -> (r: Vec<u8>)
        ensures
            r@ == strings_block(self@.names),
    {
        let mut r: Vec<u8> = Vec::new();
        let ghost names = self@.names;
        let mut i: usize = 0;
        assert(names.take(0) =~= Seq::<Seq<u8>>::empty());
        while i < self.names.len()
            invariant
                i <= self.names@.len(),
                names == self@.names,
                r@ == strings_block(names.take(i as int)),
            decreases self.names@.len() - i,
        {
            assert(names[i as int] == self.names@[i as int]@);
            assert(names.take(i + 1).drop_last() =~= names.take(i as int));
            let ghost r0 = r@;
            push_bytes(&mut r, self.names[i].as_slice());
            r.push(0);
            assert(r@ =~= r0 + names[i as int] + seq![0u8]);
            i += 1;
        }
        assert(names.take(i as int) =~= names);
        r
    }

    fn push_reserve(&self, out: &mut Vec<u8>)
        ensures
            final(out)@ == old(out)@ + reserve_block(self@.reserve.push((0, 0))),
    {
        let ghost rs = self@.reserve;
        let ghost start = out@;
        let mut i: usize = 0;
        assert(rs.take(0) =~= Seq::<(u64, u64)>::empty());
        assert(out@ =~= start + reserve_block(rs.take(0)));
        while i < self.reserve.len()
            invariant
                i <= self.reserve@.len(),
                rs == self@.reserve,
                out@ == start + reserve_block(rs.take(i as int)),
            decreases self.reserve@.len() - i,
        {
            assert(rs.take(i + 1).drop_last() =~= rs.take(i as int));
            let (a, n) = self.reserve[i];
            push_be64(out, a);
            push_be64(out, n);
            i += 1;
            assert(out@ =~= start + reserve_block(rs.take(i as int)));
        }
        assert(rs.take(i as int) =~= rs);
        assert(rs.push((0, 0)).drop_last() =~= rs);
        push_be64(out, 0);
        push_be64(out, 0);
        assert(out@ =~= start + reserve_block(rs.push((0, 0))));
    }

    /// Closes the structure and produces the blob.
    pub fn finish(&self) -> (r: Result<Vec<u8>, FdtError>)
        ensures
            match r {
                Ok(b) => self@.finished() == Ok::<Seq<u8>, Flaw>(b@),
                Err(e) => self@.finished() == Err::<Seq<u8>, Flaw>(e@),
            },
    {
        if let Some(e) = &self.error {
            return Err(e.copy());
        }
        if self.depth != 0 {
            return Err(FdtError::UnclosedNodes(self.depth));
        }
        if self.roots == 0 {
            return Err(FdtError::Empty);
        }
        let strings: Vec<u8> = self.strings();
        let off_struct: u128 = 40 + (self.reserve.len() as u128 + 1) * 16;
        let size_struct: u128 = self.structs.len() as u128 + 4;
        let off_strings: u128 = off_struct + size_struct;
        let total: u128 = off_strings + strings.len() as u128;
        let mut out: Vec<u8> = Vec::new();
        push_be32(&mut out, FDT_MAGIC);
        push_be32(&mut out, total as u32);
        push_be32(&mut out, off_struct as u32);
        push_be32(&mut out, off_strings as u32);
        push_be32(&mut out, 40);
        push_be32(&mut out, FDT_VERSION);
        push_be32(&mut out, FDT_LAST_COMP_VERSION);
        push_be32(&mut out, self.boot_cpuid);
        push_be32(&mut out, strings.len() as u32);
        push_be32(&mut out, size_struct as u32);
        self.push_reserve(&mut out);
        push_bytes(&mut out, self.structs.as_slice());
        push_be32(&mut out, FDT_END);
        push_bytes(&mut out, strings.as_slice());
        assert(out@ =~= self@.blob());
        Ok(out)
    }
}

/// The first error is kept: no later call changes it.
pub proof fn law_first_error_stays(t: Fdt, name: Seq<char>, v: Seq<u8>)
    requires
        t.error is Some,
    ensures
        t.begun(name).error == t.error,
        t.ended().error == t.error,
        t.prop(name, v).error == t.error,
        t.finished() == Err::<Seq<u8>, Flaw>(t.error->0),
{
    reveal(Fdt::begun);
    reveal(Fdt::ended);
    reveal(Fdt::prop);
}

/// The structure block stays aligned to 4 bytes.
pub proof fn law_structure_stays_aligned(t: Fdt, name: Seq<char>, v: Seq<u8>)
    requires
        t.structs.len() % 4 == 0,
    ensures
        t.begun(name).structs.len() % 4 == 0,
        t.ended().structs.len() % 4 == 0,
        t.prop(name, v).structs.len() % 4 == 0,
{
    reveal(Fdt::begun);
    reveal(Fdt::ended);
    reveal(Fdt::prop);
}

pub proof fn lemma_name_index(names: Seq<Seq<u8>>, name: Seq<u8>)
    ensures
        name_index(names, name) <= names.len(),
        name_index(names, name) < names.len() <==> names.contains(name),
        name_index(names, name) < names.len() ==> names[name_index(names, name) as int] == name,
    decreases names.len(),
{
    if names.len() > 0 && names[0] != name {
        let rest = names.skip(1);
        lemma_name_index(rest, name);
        if names.contains(name) {
            let i = choose|i: int| 0 <= i < names.len() && names[i] == name;
            assert(rest[i - 1] == name);
        }
        if name_index(rest, name) < rest.len() {
            assert(rest[name_index(rest, name) as int] == names[1 + name_index(rest, name) as int]);
        }
    }
}

/// Every name appears in the strings block exactly once, however often it is
/// used.
pub proof fn law_names_appear_once(t: Fdt, name: Seq<char>, v: Seq<u8>)
    requires
        t.names.no_duplicates(),
    ensures
        t.prop(name, v).names.no_duplicates(),
        t.prop(name, v).names.contains(encode_utf8(name)),
        t.begun(name).names == t.names,
        t.ended().names == t.names,
{
    reveal(Fdt::begun);
    reveal(Fdt::ended);
    reveal(Fdt::prop);
    let b = encode_utf8(name);
    lemma_name_index(t.names, b);
    let after = t.prop(name, v).names;
    assert(after == with_name(t.names, b));
    if !t.names.contains(b) {
        assert(after == t.names.push(b));
        assert(after[t.names.len() as int] == b);
    }
}

} // verus!
