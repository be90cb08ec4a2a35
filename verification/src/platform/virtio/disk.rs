//! Disks: what the block device reads and writes.
use vstd::prelude::*;
use crate::bytes::{copy_into, fill_front, min_len, patched, push_bytes, push_zeros, to_vec, zeroed, zeros};
use crate::table::{keyed, law_table_put, lemma_rank, ordered, put, rank, value, Table};

verus! {

pub const BLK_SECTOR_SIZE: u64 = 512;

#[derive(Clone, Copy, Debug, PartialEq, Eq, Structural)]
pub enum BlockError {
    /// I/O error of the backend.
    Io,
    /// Sectors past the end of the disk.
    OutOfRange,
    /// Write to a backend that can only be read.
    ReadOnly,
    /// Data not available yet: try again later.
    NotReady,
}

/// A disk as the device sees it. `sector` counts units of 512 bytes; the buffers
/// are multiples of 512.
///
/// A backend is a deterministic machine: `Model` is its abstract state, and the
/// spec functions say what each call leaves and returns. The size never changes.
/// By default they are those of an empty disk that is never ready.
pub trait BlockBackend: Sized {
    type Model;

    spec fn model(&self) -> Self::Model;

    /// What holds of the backend between calls.
    open spec fn sound(m: Self::Model) -> bool {
        true
    }

    open spec fn bytes(m: Self::Model) -> u64 {
        0
    }

    open spec fn locked(m: Self::Model) -> bool {
        false
    }

    open spec fn read_next(m: Self::Model, sector: u64, n: nat) -> Self::Model {
        m
    }

    open spec fn read_result(m: Self::Model, sector: u64, n: nat) -> Result<Seq<u8>, BlockError> {
        Err(BlockError::NotReady)
    }

    open spec fn write_next(m: Self::Model, sector: u64, data: Seq<u8>) -> Self::Model {
        m
    }

    open spec fn write_result(m: Self::Model, sector: u64, data: Seq<u8>) -> Result<(), BlockError> {
        Err(BlockError::NotReady)
    }

    open spec fn flush_next(m: Self::Model) -> Self::Model {
        m
    }

    open spec fn flush_result(m: Self::Model) -> Result<(), BlockError> {
        Ok(())
    }

    /// A read keeps the backend sound and its size, and gives what was asked for.
    proof fn steady(m: Self::Model, sector: u64)
        requires
            Self::sound(m),
        ensures
            forall|n: nat|
                Self::sound(#[trigger] Self::read_next(m, sector, n)) && Self::bytes(
                    Self::read_next(m, sector, n),
                ) == Self::bytes(m),
            forall|n: nat|
                #[trigger] Self::read_result(m, sector, n) matches Ok(d) ==> d.len() == n,
    ;

    /// Size in bytes (a multiple of 512).
    fn size(&self) -> (r: u64)
        requires
            Self::sound(self.model()),
        ensures
            r == Self::bytes(self.model()),
    ;

    fn read_only(&self) -> (r: bool)
        requires
            Self::sound(self.model()),
        ensures
            r == Self::locked(self.model()),
    ;

    fn read_sectors(&mut self, sector: u64, buf: &mut [u8]) -> (r: Result<(), BlockError>)
        requires
            Self::sound(old(self).model()),
        ensures
            Self::sound(final(self).model()),
            Self::bytes(final(self).model()) == Self::bytes(old(self).model()),
            final(self).model() == Self::read_next(old(self).model(), sector, old(buf)@.len()),
            final(buf)@.len() == old(buf)@.len(),
            match r {
                Ok(_) => Self::read_result(old(self).model(), sector, old(buf)@.len()) == Ok::<
                    Seq<u8>,
                    BlockError,
                >(final(buf)@),
                Err(e) => Self::read_result(old(self).model(), sector, old(buf)@.len()) == Err::<
                    Seq<u8>,
                    BlockError,
                >(e),
            },
    ;

    fn write_sectors(&mut self, sector: u64, data: &[u8]) -> (r: Result<(), BlockError>)
        requires
            Self::sound(old(self).model()),
        ensures
            Self::sound(final(self).model()),
            Self::bytes(final(self).model()) == Self::bytes(old(self).model()),
            final(self).model() == Self::write_next(old(self).model(), sector, data@),
            r == Self::write_result(old(self).model(), sector, data@),
    ;

    fn flush(&mut self) -> (r: Result<(), BlockError>)
        requires
            Self::sound(old(self).model()),
        ensures
            Self::sound(final(self).model()),
            Self::bytes(final(self).model()) == Self::bytes(old(self).model()),
            final(self).model() == Self::flush_next(old(self).model()),
            r == Self::flush_result(old(self).model()),
    ;
}

/// `len` bytes from the sector `sector` on lie in a disk of `size` bytes.
pub open spec fn in_range(size: u64, sector: u64, len: nat) -> bool {
    sector * 512 + len <= size && len % 512 == 0
}

/// Where `len` bytes from the sector `sector` on start, if they lie in `size`.
fn byte_range(size: u64, sector: u64, len: usize) -> (r: Result<u64, BlockError>)
    ensures
        match r {
            Ok(start) => in_range(size, sector, len as nat) && start == sector * 512,
            Err(e) => !in_range(size, sector, len as nat) && e == BlockError::OutOfRange,
        },
{
    match sector.checked_mul(BLK_SECTOR_SIZE) {
        None => Err(BlockError::OutOfRange),
        Some(start) => match start.checked_add(len as u64) {
            None => Err(BlockError::OutOfRange),
            Some(end) => if end > size || len as u64 % BLK_SECTOR_SIZE != 0 {
                Err(BlockError::OutOfRange)
            } else {
                Ok(start)
            },
        },
    }
}

// ---- Disk in memory -------------------------------------------------------------

/// A disk in memory.
#[derive(Clone, Debug, Default)]
pub struct MemBackend {
    pub data: Vec<u8>,
    pub read_only: bool,
}

/// What a [`MemBackend`] holds.
#[verifier::ext_equal]
pub struct Platter {
    pub data: Seq<u8>,
    pub read_only: bool,
}

impl View for MemBackend {
    type V = Platter;

    open spec fn view(&self) -> Platter {
        Platter { data: self.data@, read_only: self.read_only }
    }
}

/// Zero bytes that bring `n` to a whole number of sectors.
pub open spec fn padding(n: nat) -> nat {
    ((512 - n % 512) % 512) as nat
}

impl MemBackend {
    /// A disk of `size` zero bytes (rounded up to a sector).
    pub fn new(size: u64) -> (r: Self)
        requires
            size + 511 <= usize::MAX,
        ensures
            r@.data == zeros(size as nat + padding(size as nat)),
            !r@.read_only,
    {
        let r = Self::from_vec(zeroed(size as usize));
        assert(r@.data =~= zeros(size as nat + padding(size as nat)));
        r
    }

    /// A disk with the contents given, filled up with zeros to a sector.
    pub fn from_vec(data: Vec<u8>) -> (r: Self)
        requires
            data@.len() + 511 <= usize::MAX,
        ensures
            r@.data == data@ + zeros(padding(data@.len())),
            !r@.read_only,
    {
        let mut d: Vec<u8> = data;
        let pad: usize = (512 - d.len() % 512) % 512;
        push_zeros(&mut d, pad);
        MemBackend { data: d, read_only: false }
    }

    /// The same disk, which can only be read.
    pub fn read_only(self) -> (r: Self)
        ensures
            r@ == (Platter { read_only: true, ..self@ }),
    {
        MemBackend { data: self.data, read_only: true }
    }

    pub fn data(&self) -> (r: &[u8])
        ensures
            r@ == self@.data,
    {
        self.data.as_slice()
    }
}

impl BlockBackend for MemBackend {
    type Model = Platter;

    open spec fn model(&self) -> Platter {
        self@
    }

    open spec fn sound(m: Platter) -> bool {
        m.data.len() <= usize::MAX
    }

    open spec fn bytes(m: Platter) -> u64 {
        m.data.len() as u64
    }

    open spec fn locked(m: Platter) -> bool {
        m.read_only
    }

    open spec fn read_next(m: Platter, sector: u64, n: nat) -> Platter {
        m
    }

    open spec fn read_result(m: Platter, sector: u64, n: nat) -> Result<Seq<u8>, BlockError> {
        if in_range(m.data.len() as u64, sector, n) {
            Ok(m.data.subrange(sector * 512, sector * 512 + n))
        } else {
            Err(BlockError::OutOfRange)
        }
    }

    open spec fn write_next(m: Platter, sector: u64, data: Seq<u8>) -> Platter {
        if !m.read_only && in_range(m.data.len() as u64, sector, data.len()) {
            Platter { data: patched(m.data, sector * 512, data), ..m }
        } else {
            m
        }
    }

    open spec fn write_result(m: Platter, sector: u64, data: Seq<u8>) -> Result<(), BlockError> {
        if m.read_only {
            Err(BlockError::ReadOnly)
        } else if in_range(m.data.len() as u64, sector, data.len()) {
            Ok(())
        } else {
            Err(BlockError::OutOfRange)
        }
    }

    open spec fn flush_next(m: Platter) -> Platter {
        m
    }

    open spec fn flush_result(m: Platter) -> Result<(), BlockError> {
        Ok(())
    }

    proof fn steady(m: Platter, sector: u64) {
    }

    fn size(&self) -> (r: u64) {
        self.data.len() as u64
    }

    fn read_only(&self) -> (r: bool) {
        self.read_only
    }

    fn read_sectors(&mut self, sector: u64, buf: &mut [u8]) -> (r: Result<(), BlockError>) {
        let have: usize = self.data.len();
        let n: usize = buf.len();
        match byte_range(have as u64, sector, n) {
            Err(e) => Err(e),
            Ok(start) => {
                let s: usize = start as usize;
                assert(s + n <= have);
                let part: &[u8] = vstd::slice::slice_subrange(self.data.as_slice(), s, s + n);
                fill_front(buf, part);
                assert(buf@ =~= part@);
                Ok(())
            },
        }
    }

    fn write_sectors(&mut self, sector: u64, data: &[u8]) -> (r: Result<(), BlockError>) {
        if self.read_only {
            return Err(BlockError::ReadOnly);
        }
        let have: usize = self.data.len();
        match byte_range(have as u64, sector, data.len()) {
            Err(e) => Err(e),
            Ok(start) => {
                assert(start + data@.len() <= have);
                copy_into(&mut self.data, start as usize, data);
                Ok(())
            },
        }
    }

    fn flush(&mut self) -> (r: Result<(), BlockError>) {
        Ok(())
    }
}

// ---- Copy-on-write layer --------------------------------------------------------

/// Bytes in a cluster of the copy-on-write layer.
pub const CLUSTER: u64 = 4096;

/// A copy-on-write layer above a backend that is only read (for example an image
/// that is downloaded in pieces): writes end up in clusters of 4096 bytes in
/// memory, and reads prefer the written clusters. A partial write of a cluster
/// copies it first from the base.
///
/// For a layer that outlives the machine it also keeps the clusters written
/// since the last [`CowBackend::take_dirty`]: who stores the clusters in a file
/// writes only those.
pub struct CowBackend<B> {
    pub base: B,
    pub clusters: Table<Vec<u8>>,
    pub dirty: Table<bool>,
}

/// What a [`CowBackend`] holds.
#[verifier::ext_equal]
pub struct Layered<M> {
    pub base: M,
    /// The written clusters, in order of index.
    pub clusters: Seq<(u64, Seq<u8>)>,
    /// The clusters written since the last `take_dirty`.
    pub dirty: Seq<(u64, bool)>,
}

/// Size of the cluster `c` in a disk of `size` bytes (the last can be shorter).
pub open spec fn cluster_len(size: u64, c: u64) -> nat {
    if size >= c * 4096 {
        min_len((size - c * 4096) as nat, 4096)
    } else {
        0
    }
}

/// Every written cluster lies in the disk and is as long as its place there.
pub open spec fn clusters_fit(size: u64, clusters: Seq<(u64, Seq<u8>)>) -> bool {
    forall|i: int|
        0 <= i < clusters.len() ==> {
            &&& (#[trigger] clusters[i]).0 * 4096 < size
            &&& clusters[i].1.len() == cluster_len(size, clusters[i].0)
        }
}

/// `n` bytes from `at` on, cluster by cluster: from the layer where it has the
/// cluster, else from the base.
pub open spec fn cow_read<B: BlockBackend>(s: Layered<B::Model>, at: int, n: nat) -> (
    Layered<B::Model>,
    Result<Seq<u8>, BlockError>,
)
    decreases n,
{
    if n == 0 {
        (s, Ok(Seq::empty()))
    } else {
        let c = (at / 4096) as u64;
        let off = at % 4096;
        let k = min_len((4096 - off) as nat, n);
        if keyed(s.clusters, c) {
            let (s2, r) = cow_read::<B>(s, at + k, (n - k) as nat);
            (
                s2,
                match r {
                    Ok(rest) => Ok(value(s.clusters, c).subrange(off, off + k) + rest),
                    Err(e) => Err(e),
                },
            )
        } else {
            let s1 = Layered { base: B::read_next(s.base, (at / 512) as u64, k), ..s };
            match B::read_result(s.base, (at / 512) as u64, k) {
                Err(e) => (s1, Err(e)),
                Ok(piece) => {
                    let (s2, r) = cow_read::<B>(s1, at + k, (n - k) as nat);
                    (
                        s2,
                        match r {
                            Ok(rest) => Ok(piece + rest),
                            Err(e) => Err(e),
                        },
                    )
                },
            }
        }
    }
}

/// The cluster `c` as it is before its part is overwritten: the written one, the
/// base's if only a part is overwritten, else zeros.
pub open spec fn cow_cluster<B: BlockBackend>(s: Layered<B::Model>, c: u64, k: nat) -> (
    Layered<B::Model>,
    Result<Seq<u8>, BlockError>,
) {
    let len = cluster_len(B::bytes(s.base), c);
    if keyed(s.clusters, c) {
        (s, Ok(value(s.clusters, c)))
    } else if k < len {
        (
            Layered { base: B::read_next(s.base, (c * 4096 / 512) as u64, len), ..s },
            B::read_result(s.base, (c * 4096 / 512) as u64, len),
        )
    } else {
        (s, Ok(zeros(len)))
    }
}

/// `data` written from `at` on, cluster by cluster.
pub open spec fn cow_write<B: BlockBackend>(s: Layered<B::Model>, at: int, data: Seq<u8>) -> (
    Layered<B::Model>,
    Result<(), BlockError>,
)
    decreases data.len(),
{
    if data.len() == 0 {
        (s, Ok(()))
    } else {
        let c = (at / 4096) as u64;
        let off = at % 4096;
        let k = min_len((4096 - off) as nat, data.len());
        let (s1, r) = cow_cluster::<B>(s, c, k);
        match r {
            Err(e) => (s1, Err(e)),
            Ok(whole) => {
                let s2 = Layered {
                    clusters: put(s1.clusters, c, patched(whole, off, data.take(k as int))),
                    dirty: put(s1.dirty, c, true),
                    ..s1
                };
                cow_write::<B>(s2, at + k, data.skip(k as int))
            },
        }
    }
}

/// The keys of a table.
pub open spec fn keys<M>(s: Seq<(u64, M)>) -> Seq<u64> {
    s.map_values(|e: (u64, M)| e.0)
}

impl<B: BlockBackend> View for CowBackend<B> {
    type V = Layered<B::Model>;

    open spec fn view(&self) -> Layered<B::Model> {
        Layered { base: self.base.model(), clusters: self.clusters@, dirty: self.dirty@ }
    }
}

/// The layer fits the disk below it.
pub open spec fn cow_sound<B: BlockBackend>(s: Layered<B::Model>) -> bool {
    &&& B::sound(s.base)
    &&& ordered(s.clusters)
    &&& ordered(s.dirty)
    &&& clusters_fit(B::bytes(s.base), s.clusters)
}

pub proof fn lemma_put_fits(size: u64, clusters: Seq<(u64, Seq<u8>)>, c: u64, d: Seq<u8>)
    requires
        ordered(clusters),
        clusters_fit(size, clusters),
        c * 4096 < size,
        d.len() == cluster_len(size, c),
    ensures
        ordered(put(clusters, c, d)),
        clusters_fit(size, put(clusters, c, d)),
{
    law_table_put(clusters, c, d, c);
    lemma_rank(clusters, c);
    let t = put(clusters, c, d);
    assert forall|i: int| 0 <= i < t.len() implies (#[trigger] t[i]).0 * 4096 < size && t[i].1.len()
        == cluster_len(size, t[i].0) by {
        let r = rank(clusters, c);
        if i < r {
            assert(t[i] == clusters[i]);
        } else if i > r {
            if keyed(clusters, c) {
                assert(t[i] == clusters[i]);
            } else {
                assert(t[i] == clusters[i - 1]);
            }
        }
    }
}

impl<B: BlockBackend> CowBackend<B> {
    pub fn new(base: B) -> (r: Self)
        requires
            B::sound(base.model()),
        ensures
            r@ == (Layered { base: base.model(), clusters: Seq::empty(), dirty: Seq::empty() }),
            cow_sound::<B>(r@),
    {
        CowBackend { base, clusters: Table::new(), dirty: Table::new() }
    }

    pub fn base(&self) -> (r: &B)
        ensures
            *r == self.base,
            r.model() == self@.base,
    {
        &self.base
    }

    pub fn base_mut(&mut self) -> (r: &mut B)
        ensures
            *r == old(self).base,
            r.model() == old(self)@.base,
            final(self)@ == (Layered { base: final(r).model(), ..old(self)@ }),
    {
        &mut self.base
    }

    /// Number of written clusters.
    pub fn dirty_clusters(&self) -> (r: usize)
        ensures
            r == self@.clusters.len(),
    {
        self.clusters.len()
    }

    /// The clusters that the guest has written since the last call, in order.
    pub fn take_dirty(&mut self) -> (r: Vec<u64>)
        ensures
            r@ == keys(old(self)@.dirty),
            final(self)@ == (Layered { dirty: Seq::empty(), ..old(self)@ }),
    {
        let mut r: Vec<u64> = Vec::new();
        let mut i: usize = 0;
        while i < self.dirty.entries.len()
            invariant
                *self == *old(self),
                i <= self.dirty.entries@.len(),
                r@ =~= keys(self@.dirty).take(i as int),
            decreases self.dirty.entries@.len() - i,
        {
            r.push(self.dirty.entries[i].0);
            i += 1;
        }
        self.dirty = Table::new();
        r
    }

    /// The data of the cluster `c`, if it was written.
    pub fn cluster(&self, c: u64) -> (r: Option<&[u8]>)
        ensures
            match r {
                Some(d) => keyed(self@.clusters, c) && d@ == value(self@.clusters, c),
                None => !keyed(self@.clusters, c),
            },
    {
        match self.clusters.get(c) {
            Some(d) => Some(d.as_slice()),
            None => None,
        }
    }

    /// All the written clusters, in order of index.
    pub fn clusters(&self) -> (r: Vec<(u64, &[u8])>)
        ensures
            r@.len() == self@.clusters.len(),
            forall|i: int|
                0 <= i < r@.len() ==> (#[trigger] r@[i]).0 == self@.clusters[i].0 && r@[i].1@
                    == self@.clusters[i].1,
    {
        let mut r: Vec<(u64, &[u8])> = Vec::new();
        let mut i: usize = 0;
        while i < self.clusters.entries.len()
            invariant
                i <= self.clusters.entries@.len(),
                r@.len() == i,
                forall|k: int|
                    0 <= k < i ==> (#[trigger] r@[k]).0 == self@.clusters[k].0 && r@[k].1@
                        == self@.clusters[k].1,
            decreases self.clusters.entries@.len() - i,
        {
            let e: &(u64, Vec<u8>) = &self.clusters.entries[i];
            r.push((e.0, e.1.as_slice()));
            i += 1;
        }
        r
    }

    /// Puts the cluster `c` with the data of a stored layer (as long as the
    /// cluster is in the disk). It does not count as a write of the guest.
    pub fn load_cluster(&mut self, c: u64, data: &[u8]) -> (r: Result<(), BlockError>)
        requires
            cow_sound::<B>(old(self)@),
        ensures
            cow_sound::<B>(final(self)@),
            ({
                let size = B::bytes(old(self)@.base);
                if c * 4096 >= size {
                    r == Err::<(), BlockError>(BlockError::OutOfRange) && final(self)@ == old(
                        self,
                    )@
                } else if data@.len() != cluster_len(size, c) {
                    r == Err::<(), BlockError>(BlockError::Io) && final(self)@ == old(self)@
                } else {
                    &&& r == Ok::<(), BlockError>(())
                    &&& final(self)@ == (Layered {
                        clusters: put(old(self)@.clusters, c, data@),
                        ..old(self)@
                    })
                }
            }),
    {
        let size: u64 = self.base.size();
        let whole: u64 = if size % CLUSTER == 0 {
            size / CLUSTER
        } else {
            size / CLUSTER + 1
        };
        if c >= whole {
            return Err(BlockError::OutOfRange);
        }
        if data.len() as u64 != Self::len_in(size, c) {
            return Err(BlockError::Io);
        }
        proof {
            lemma_put_fits(size, self@.clusters, c, data@);
        }
        self.clusters.insert(c, to_vec(data));
        Ok(())
    }

    /// Size of the cluster `c`.
    pub fn len_in(size: u64, c: u64) -> (r: u64)
        requires
            c * 4096 < size,
        ensures
            r == cluster_len(size, c),
            r <= 4096,
    {
        let left: u64 = size - c * CLUSTER;
        if left <= CLUSTER {
            left
        } else {
            CLUSTER
        }
    }

    /// The cluster `c` before its part of `k` bytes is overwritten.
    fn open_cluster(&mut self, c: u64, k: usize) -> (r: Result<Vec<u8>, BlockError>)
        requires
            cow_sound::<B>(old(self)@),
            c * 4096 < B::bytes(old(self)@.base),
        ensures
            cow_sound::<B>(final(self)@),
            B::bytes(final(self)@.base) == B::bytes(old(self)@.base),
            final(self)@ == cow_cluster::<B>(old(self)@, c, k as nat).0,
            match r {
                Ok(d) => cow_cluster::<B>(old(self)@, c, k as nat).1 == Ok::<Seq<u8>, BlockError>(
                    d@,
                ) && d@.len() == cluster_len(B::bytes(old(self)@.base), c),
                Err(e) => cow_cluster::<B>(old(self)@, c, k as nat).1 == Err::<
                    Seq<u8>,
                    BlockError,
                >(e),
            },
    {
        let size: u64 = self.base.size();
        match self.clusters.get(c) {
            Some(d) => {
                proof {
                    lemma_rank(self@.clusters, c);
                }
                return Ok(to_vec(d.as_slice()));
            },
            None => {},
        }
        let len: usize = Self::len_in(size, c) as usize;
        let mut fresh: Vec<u8> = zeroed(len);
        if k < len {
            match self.base.read_sectors(c * CLUSTER / BLK_SECTOR_SIZE, fresh.as_mut_slice()) {
                Ok(_) => {},
                Err(e) => {
                    return Err(e);
                },
            }
        }
        Ok(fresh)
    }

    /// The piece of at most `n` bytes at `at`, within one cluster.
    fn read_piece(&mut self, at: u64, k: usize) -> (r: Result<Vec<u8>, BlockError>)
        requires
            cow_sound::<B>(old(self)@),
            0 < k,
            at % 4096 + k <= 4096,
            at + k <= B::bytes(old(self)@.base),
        ensures
            cow_sound::<B>(final(self)@),
            B::bytes(final(self)@.base) == B::bytes(old(self)@.base),
            r matches Ok(d) ==> d@.len() == k,
            ({
                let s = old(self)@;
                let c = (at as int / 4096) as u64;
                let off = at as int % 4096;
                if keyed(s.clusters, c) {
                    &&& r matches Ok(d) && d@ == value(s.clusters, c).subrange(off, off + k)
                    &&& final(self)@ == s
                } else {
                    &&& final(self)@ == (Layered {
                        base: B::read_next(s.base, (at as int / 512) as u64, k as nat),
                        ..s
                    })
                    &&& match r {
                        Ok(d) => B::read_result(s.base, (at as int / 512) as u64, k as nat) == Ok::<
                            Seq<u8>,
                            BlockError,
                        >(d@),
                        Err(e) => B::read_result(s.base, (at as int / 512) as u64, k as nat) == Err::<
                            Seq<u8>,
                            BlockError,
                        >(e),
                    }
                }
            }),
    {
        let c: u64 = at / CLUSTER;
        let off: usize = (at % CLUSTER) as usize;
        match self.clusters.get(c) {
            Some(d) => {
                proof {
                    lemma_rank(self@.clusters, c);
                    assert(self@.clusters[rank(self@.clusters, c)].0 == c);
                    assert(d@.len() == cluster_len(B::bytes(self@.base), c));
                }
                let part: &[u8] = vstd::slice::slice_subrange(d.as_slice(), off, off + k);
                return Ok(to_vec(part));
            },
            None => {},
        }
        let mut piece: Vec<u8> = zeroed(k);
        match self.base.read_sectors(at / BLK_SECTOR_SIZE, piece.as_mut_slice()) {
            Ok(_) => Ok(piece),
            Err(e) => Err(e),
        }
    }
}

impl<B: BlockBackend> BlockBackend for CowBackend<B> {
    type Model = Layered<B::Model>;

    open spec fn model(&self) -> Layered<B::Model> {
        self@
    }

    open spec fn sound(m: Layered<B::Model>) -> bool {
        cow_sound::<B>(m)
    }

    open spec fn bytes(m: Layered<B::Model>) -> u64 {
        B::bytes(m.base)
    }

    open spec fn locked(m: Layered<B::Model>) -> bool {
        false
    }

    open spec fn read_next(m: Layered<B::Model>, sector: u64, n: nat) -> Layered<B::Model> {
        if in_range(B::bytes(m.base), sector, n) {
            cow_read::<B>(m, sector * 512, n).0
        } else {
            m
        }
    }

    open spec fn read_result(m: Layered<B::Model>, sector: u64, n: nat) -> Result<
        Seq<u8>,
        BlockError,
    > {
        if in_range(B::bytes(m.base), sector, n) {
            cow_read::<B>(m, sector * 512, n).1
        } else {
            Err(BlockError::OutOfRange)
        }
    }

    open spec fn write_next(m: Layered<B::Model>, sector: u64, data: Seq<u8>) -> Layered<B::Model> {
        if in_range(B::bytes(m.base), sector, data.len()) {
            cow_write::<B>(m, sector * 512, data).0
        } else {
            m
        }
    }

    open spec fn write_result(m: Layered<B::Model>, sector: u64, data: Seq<u8>) -> Result<
        (),
        BlockError,
    > {
        if in_range(B::bytes(m.base), sector, data.len()) {
            cow_write::<B>(m, sector * 512, data).1
        } else {
            Err(BlockError::OutOfRange)
        }
    }

    open spec fn flush_next(m: Layered<B::Model>) -> Layered<B::Model> {
        m
    }

    open spec fn flush_result(m: Layered<B::Model>) -> Result<(), BlockError> {
        Ok(())
    }

    proof fn steady(m: Layered<B::Model>, sector: u64) {
        assert forall|n: nat|
            Self::sound(#[trigger] Self::read_next(m, sector, n)) && Self::bytes(
                Self::read_next(m, sector, n),
            ) == Self::bytes(m) by {
            if in_range(B::bytes(m.base), sector, n) {
                lemma_cow_read::<B>(m, sector * 512, n);
            }
        }
        assert forall|n: nat|
            #[trigger] Self::read_result(m, sector, n) matches Ok(d) ==> d.len() == n by {
            if in_range(B::bytes(m.base), sector, n) {
                lemma_cow_read::<B>(m, sector * 512, n);
            }
        }
    }

    fn size(&self) -> (r: u64) {
        self.base.size()
    }

    fn read_only(&self) -> (r: bool) {
        false
    }

    fn read_sectors(&mut self, sector: u64, buf: &mut [u8]) -> (r: Result<(), BlockError>) {
        let size: u64 = self.base.size();
        let n: usize = buf.len();
        let start: u64 = match byte_range(size, sector, n) {
            Ok(s) => s,
            Err(e) => {
                return Err(e);
            },
        };
        let mut out: Vec<u8> = Vec::new();
        let mut done: usize = 0;
        let ghost goal = cow_read::<B>(self@, start as int, n as nat);
        proof {
            if let Ok(d) = goal.1 {
                assert(out@ + d =~= d);
            }
        }
        while done < n
            invariant
                cow_sound::<B>(self@),
                B::bytes(self@.base) == size,
                B::bytes(old(self)@.base) == size,
                start == sector * 512,
                start + n <= size,
                done <= n,
                out@.len() == done,
                n == old(buf)@.len() == buf@.len(),
                in_range(size, sector, n as nat),
                goal == cow_read::<B>(old(self)@, start as int, n as nat),
                goal.0 == cow_read::<B>(self@, start + done, (n - done) as nat).0,
                goal.1 == (match cow_read::<B>(self@, start + done, (n - done) as nat).1 {
                    Ok(rest) => Ok(out@ + rest),
                    Err(e) => Err::<Seq<u8>, BlockError>(e),
                }),
            decreases n - done,
        {
            let at: u64 = start + done as u64;
            let room: usize = (CLUSTER - at % CLUSTER) as usize;
            let k: usize = if room <= n - done {
                room
            } else {
                n - done
            };
            let ghost before = self@;
            match self.read_piece(at, k) {
                Err(e) => {
                    return Err(e);
                },
                Ok(piece) => {
                    let ghost out0 = out@;
                    push_bytes(&mut out, piece.as_slice());
                    proof {
                        if let Ok(rest) = cow_read::<B>(self@, at + k, (n - done - k) as nat).1 {
                            assert(out0 + (piece@ + rest) =~= out@ + rest);
                        }
                    }
                },
            }
            done = done + k;
        }
        assert(out@ + Seq::<u8>::empty() =~= out@);
        fill_front(buf, out.as_slice());
        assert(buf@ =~= out@);
        Ok(())
    }

    fn write_sectors(&mut self, sector: u64, data: &[u8]) -> (r: Result<(), BlockError>) {
        let size: u64 = self.base.size();
        let n: usize = data.len();
        let start: u64 = match byte_range(size, sector, n) {
            Ok(s) => s,
            Err(e) => {
                return Err(e);
            },
        };
        let mut done: usize = 0;
        assert(data@.skip(0) =~= data@);
        while done < n
            invariant
                cow_sound::<B>(self@),
                B::bytes(self@.base) == size,
                B::bytes(old(self)@.base) == size,
                start == sector * 512,
                start + n <= size,
                done <= n == data@.len(),
                in_range(size, sector, n as nat),
                cow_write::<B>(old(self)@, start as int, data@) == cow_write::<B>(
                    self@,
                    start + done,
                    data@.skip(done as int),
                ),
            decreases n - done,
        {
            let at: u64 = start + done as u64;
            let c: u64 = at / CLUSTER;
            let off: usize = (at % CLUSTER) as usize;
            let room: usize = CLUSTER as usize - off;
            let k: usize = if room <= n - done {
                room
            } else {
                n - done
            };
            let mut whole: Vec<u8> = match self.open_cluster(c, k) {
                Ok(w) => w,
                Err(e) => {
                    return Err(e);
                },
            };
            let piece: &[u8] = vstd::slice::slice_subrange(data, done, done + k);
            assert(piece@ =~= data@.skip(done as int).take(k as int));
            copy_into(&mut whole, off, piece);
            proof {
                lemma_put_fits(size, self@.clusters, c, whole@);
                law_table_put(self@.dirty, c, true, c);
                assert(data@.skip(done as int).skip(k as int) =~= data@.skip(done + k));
            }
            self.clusters.insert(c, whole);
            self.dirty.insert(c, true);
            done = done + k;
        }
        Ok(())
    }

    fn flush(&mut self) -> (r: Result<(), BlockError>) {
        Ok(())
    }
}

pub proof fn lemma_value_len(size: u64, clusters: Seq<(u64, Seq<u8>)>, c: u64)
    requires
        clusters_fit(size, clusters),
        keyed(clusters, c),
    ensures
        value(clusters, c).len() == cluster_len(size, c),
{
    lemma_rank(clusters, c);
    assert(clusters[rank(clusters, c)].0 == c);
}

proof fn lemma_cow_read<B: BlockBackend>(s: Layered<B::Model>, at: int, n: nat)
    requires
        cow_sound::<B>(s),
        0 <= at,
        at + n <= B::bytes(s.base),
    ensures
        cow_sound::<B>(cow_read::<B>(s, at, n).0),
        B::bytes(cow_read::<B>(s, at, n).0.base) == B::bytes(s.base),
        cow_read::<B>(s, at, n).1 matches Ok(d) ==> d.len() == n,
    decreases n,
{
    if n > 0 {
        let c = (at / 4096) as u64;
        let off = at % 4096;
        let k = min_len((4096 - off) as nat, n);
        if keyed(s.clusters, c) {
            lemma_value_len(B::bytes(s.base), s.clusters, c);
            lemma_cow_read::<B>(s, at + k, (n - k) as nat);
        } else {
            B::steady(s.base, (at / 512) as u64);
            let s1 = Layered { base: B::read_next(s.base, (at / 512) as u64, k), ..s };
            lemma_cow_read::<B>(s1, at + k, (n - k) as nat);
        }
    }
}

/// A write leaves the clusters before its first one as they were.
proof fn lemma_cow_write_frame<B: BlockBackend>(
    s: Layered<B::Model>,
    at: int,
    data: Seq<u8>,
    c: u64,
)
    requires
        ordered(s.clusters),
        0 <= at,
        at + data.len() <= u64::MAX,
        c < at / 4096,
    ensures
        keyed(cow_write::<B>(s, at, data).0.clusters, c) == keyed(s.clusters, c),
        keyed(s.clusters, c) ==> value(cow_write::<B>(s, at, data).0.clusters, c) == value(
            s.clusters,
            c,
        ),
    decreases data.len(),
{
    if data.len() > 0 {
        let b = (at / 4096) as u64;
        let off = at % 4096;
        let k = min_len((4096 - off) as nat, data.len());
        let (s1, r) = cow_cluster::<B>(s, b, k);
        if let Ok(whole) = r {
            let d = patched(whole, off, data.take(k as int));
            let s2 = Layered {
                clusters: put(s1.clusters, b, d),
                dirty: put(s1.dirty, b, true),
                ..s1
            };
            law_table_put(s1.clusters, b, d, c);
            lemma_cow_write_frame::<B>(s2, at + k, data.skip(k as int), c);
        }
    }
}

proof fn lemma_cow_read_back<B: BlockBackend>(s: Layered<B::Model>, at: int, data: Seq<u8>)
    requires
        cow_sound::<B>(s),
        0 <= at,
        at + data.len() <= B::bytes(s.base),
        cow_write::<B>(s, at, data).1 is Ok,
    ensures
        ({
            let after = cow_write::<B>(s, at, data).0;
            &&& cow_read::<B>(after, at, data.len()) == (after, Ok::<Seq<u8>, BlockError>(data))
            &&& B::bytes(after.base) == B::bytes(s.base)
        }),
    decreases data.len(),
{
    let after = cow_write::<B>(s, at, data).0;
    if data.len() == 0 {
        assert(data =~= Seq::empty());
    } else {
        let c = (at / 4096) as u64;
        let off = at % 4096;
        let k = min_len((4096 - off) as nat, data.len());
        let (s1, r) = cow_cluster::<B>(s, c, k);
        let size = B::bytes(s.base);
        if keyed(s.clusters, c) {
            lemma_value_len(size, s.clusters, c);
        } else {
            B::steady(s.base, (c * 4096 / 512) as u64);
        }
        let whole = r->Ok_0;
        let d = patched(whole, off, data.take(k as int));
        let s2 = Layered { clusters: put(s1.clusters, c, d), dirty: put(s1.dirty, c, true), ..s1 };
        lemma_put_fits(size, s1.clusters, c, d);
        law_table_put(s1.clusters, c, d, c);
        law_table_put(s1.dirty, c, true, c);
        lemma_cow_read_back::<B>(s2, at + k, data.skip(k as int));
        if data.len() > k {
            lemma_cow_write_frame::<B>(s2, at + k, data.skip(k as int), c);
        }
        assert(keyed(after.clusters, c) && value(after.clusters, c) == d);
        assert(d.subrange(off, off + k) =~= data.take(k as int));
        assert(data.take(k as int) + data.skip(k as int) =~= data);
    }
}

/// The copy-on-write layer gives back what was written, without asking the base.
pub proof fn law_cow_reads_what_was_written<B: BlockBackend>(
    m: Layered<B::Model>,
    sector: u64,
    data: Seq<u8>,
)
    requires
        CowBackend::<B>::sound(m),
        CowBackend::<B>::write_result(m, sector, data) is Ok,
    ensures
        ({
            let after = CowBackend::<B>::write_next(m, sector, data);
            &&& CowBackend::<B>::read_result(after, sector, data.len()) == Ok::<
                Seq<u8>,
                BlockError,
            >(data)
            &&& CowBackend::<B>::read_next(after, sector, data.len()) == after
        }),
{
    lemma_cow_read_back::<B>(m, sector * 512, data);
}

/// A disk in memory gives back what was written.
pub proof fn law_mem_reads_what_was_written(m: Platter, sector: u64, data: Seq<u8>)
    requires
        MemBackend::sound(m),
        MemBackend::write_result(m, sector, data) is Ok,
    ensures
        MemBackend::read_result(MemBackend::write_next(m, sector, data), sector, data.len()) == Ok::<
            Seq<u8>,
            BlockError,
        >(data),
{
    let m2 = MemBackend::write_next(m, sector, data);
    assert(m2.data.subrange(sector * 512, sector * 512 + data.len()) =~= data);
}

} // verus!
