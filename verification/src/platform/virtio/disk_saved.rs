//! Disks and the block device in the saved state of the machine.
//!
//! A disk that can be written is saved whole. Of one that can only be read (the
//! base below a copy-on-write layer) only a fingerprint is saved, to see that the
//! same image is attached when the machine is restored; whoever stores the fields
//! takes it of the bytes that [`SavedBlock::image`] gives.
use vstd::prelude::*;
use crate::platform::virtio::blk::{blk_capacity, blk_locked, chain_view, Blk, VirtioBlk};
use crate::platform::virtio::disk::{cluster_len, clusters_fit, cow_sound, lemma_put_fits, BlockBackend, CowBackend, Layered, MemBackend, Platter};
use crate::platform::virtio::queue::{can_sum, Buf, Chain, DescChain};
use crate::rows::lemma_put_last;
use crate::snapshot::{add_field, append, copy_bytes, fits, law_row_comes_back, lemma_join, read_row, tokens, Fault, Field, Kind, Source, Subject, Token};
use crate::table::{keyed, lemma_rank_at, ordered, put, Table};

verus! {

/// The number of a flag.
pub open spec fn flag(b: bool) -> u64 {
    if b {
        1
    } else {
        0
    }
}

pub fn flag_of(b: bool) -> (r: u64)
    ensures
        r == flag(b),
{
    if b {
        1
    } else {
        0
    }
}

/// A disk that can be saved. `digest` is the fingerprint of its image, if it has
/// one.
pub trait SavedBlock: BlockBackend {
    /// The bytes whose fingerprint is saved in their place.
    spec fn image_of(m: Self::Model) -> Option<Seq<u8>>;

    /// The saved state.
    spec fn saved(m: Self::Model, digest: u64) -> Seq<Token>;

    /// The disk after a restoration from the fields, and what is left of them.
    spec fn revived(m: Self::Model, digest: u64, s: Seq<Token>) -> Result<
        (Self::Model, Seq<Token>),
        Fault,
    >;

    /// A restored disk is sound, as large as before, and as open to writes.
    proof fn stays(m: Self::Model, digest: u64, s: Seq<Token>)
        requires
            Self::sound(m),
        ensures
            Self::revived(m, digest, s) matches Ok((n, _)) ==> Self::sound(n) && Self::bytes(n)
                == Self::bytes(m) && Self::locked(n) == Self::locked(m),
    ;

    fn image(&self) -> (r: Option<&[u8]>)
        ensures
            match r {
                Some(b) => Self::image_of(self.model()) == Some(b@),
                None => Self::image_of(self.model()) is None,
            },
    ;

    fn save_state(&self, digest: u64) -> (r: Vec<Field>)
        requires
            Self::sound(self.model()),
        ensures
            tokens(r@) == Self::saved(self.model(), digest),
    ;

    fn restore_state<S: Source>(&mut self, src: &mut S, digest: u64) -> (r: Result<(), Fault>)
        requires
            Self::sound(old(self).model()),
        ensures
            match r {
                Ok(_) => Self::revived(old(self).model(), digest, old(src).rest()) == Ok::<
                    (Self::Model, Seq<Token>),
                    Fault,
                >((final(self).model(), final(src).rest())),
                Err(e) => {
                    &&& Self::revived(old(self).model(), digest, old(src).rest()) == Err::<
                        (Self::Model, Seq<Token>),
                        Fault,
                    >(e)
                    &&& final(self).model() == old(self).model()
                },
            },
    ;
}

// ---- Disk in memory -------------------------------------------------------------

impl SavedBlock for MemBackend {
    open spec fn image_of(m: Platter) -> Option<Seq<u8>> {
        if m.read_only {
            Some(m.data)
        } else {
            None
        }
    }

    open spec fn saved(m: Platter, digest: u64) -> Seq<Token> {
        if m.read_only {
            seq![Token::U64(1), Token::U64(digest)]
        } else {
            seq![Token::U64(0), Token::Packed(m.data)]
        }
    }

    open spec fn revived(m: Platter, digest: u64, s: Seq<Token>) -> Result<
        (Platter, Seq<Token>),
        Fault,
    > {
        if s.len() == 0 || !s[0].is_kind(Kind::U64) {
            Err(Fault::Missing)
        } else if s[0] != Token::U64(flag(m.read_only)) {
            Err(Fault::Differs(Subject::MemoryReadOnly))
        } else if m.read_only {
            if s.len() < 2 || !s[1].is_kind(Kind::U64) {
                Err(Fault::Missing)
            } else if s[1] != Token::U64(digest) {
                Err(Fault::Differs(Subject::MemoryDigest))
            } else {
                Ok((m, s.skip(1).skip(1)))
            }
        } else {
            if s.len() < 2 || !s[1].is_kind(Kind::Packed(m.data.len() as u64)) {
                Err(Fault::Missing)
            } else {
                Ok((Platter { data: s[1]->Packed_0, ..m }, s.skip(1).skip(1)))
            }
        }
    }

    proof fn stays(m: Platter, digest: u64, s: Seq<Token>) {
    }

    fn image(&self) -> (r: Option<&[u8]>) {
        if self.read_only {
            Some(self.data.as_slice())
        } else {
            None
        }
    }

    fn save_state(&self, digest: u64) -> (r: Vec<Field>) {
        let mut r: Vec<Field> = Vec::new();
        r.push(Field::U64(flag_of(self.read_only)));
        if self.read_only {
            r.push(Field::U64(digest));
        } else {
            r.push(Field::Packed(copy_bytes(&self.data)));
        }
        assert(tokens(r@) =~= Self::saved(self.model(), digest));
        r
    }

    fn restore_state<S: Source>(&mut self, src: &mut S, digest: u64) -> (r: Result<(), Fault>) {
        let ghost s = src.rest();
        let ro: u64 = match src.next(Kind::U64) {
            Ok(f) => f.u64(),
            Err(e) => {
                return Err(e);
            },
        };
        if ro != flag_of(self.read_only) {
            return Err(Fault::Differs(Subject::MemoryReadOnly));
        }
        assert(s.skip(1).len() > 0 ==> s.skip(1)[0] == s[1]);
        if self.read_only {
            let d: u64 = match src.next(Kind::U64) {
                Ok(f) => f.u64(),
                Err(e) => {
                    return Err(e);
                },
            };
            if d != digest {
                return Err(Fault::Differs(Subject::MemoryDigest));
            }
            return Ok(());
        }
        let data: Vec<u8> = match src.next(Kind::Packed(self.data.len() as u64)) {
            Ok(f) => f.packed(),
            Err(e) => {
                return Err(e);
            },
        };
        self.data = data;
        Ok(())
    }
}

/// A disk in memory that was saved is restored as it was, on a disk of the same
/// size. One that can only be read is the same image.
pub proof fn law_memory_disk_comes_back(m: Platter, n: Platter, digest: u64, rest: Seq<Token>)
    requires
        n.read_only == m.read_only,
        n.data.len() == m.data.len() <= u64::MAX,
        m.read_only ==> n.data == m.data,
    ensures
        MemBackend::revived(n, digest, MemBackend::saved(m, digest) + rest) == Ok::<
            (Platter, Seq<Token>),
            Fault,
        >((m, rest)),
{
    let s = MemBackend::saved(m, digest) + rest;
    assert(s[0] == MemBackend::saved(m, digest)[0]);
    assert(s[1] == MemBackend::saved(m, digest)[1]);
    assert(s.skip(1).skip(1) =~= rest);
    assert((MemBackend::revived(n, digest, s)->Ok_0).0 =~= m);
}

/// A disk is restored only where an image with the same fingerprint is attached.
pub proof fn law_other_image_is_refused(m: Platter, n: Platter, digest: u64, other: u64, rest: Seq<
    Token,
>)
    requires
        m.read_only && n.read_only,
        digest != other,
    ensures
        MemBackend::revived(n, other, MemBackend::saved(m, digest) + rest) == Err::<
            (Platter, Seq<Token>),
            Fault,
        >(Fault::Differs(Subject::MemoryDigest)),
{
    let s = MemBackend::saved(m, digest) + rest;
    assert(s[0] == MemBackend::saved(m, digest)[0]);
    assert(s[1] == MemBackend::saved(m, digest)[1]);
}

// ---- Copy-on-write layer --------------------------------------------------------

/// The first `n` of the written clusters, each with its index.
pub open spec fn cluster_tokens(clusters: Seq<(u64, Seq<u8>)>, n: nat) -> Seq<Token>
    decreases n,
{
    if n == 0 {
        Seq::empty()
    } else {
        cluster_tokens(clusters, (n - 1) as nat) + seq![
            Token::U64(clusters[n - 1].0),
            Token::Packed(clusters[n - 1].1),
        ]
    }
}

/// `n` clusters of a disk of `size` bytes at the front, and what is left after
/// them: each in the disk, none twice.
pub open spec fn clusters_from(size: u64, s: Seq<Token>, n: nat) -> Result<
    (Seq<(u64, Seq<u8>)>, Seq<Token>),
    Fault,
>
    decreases n,
{
    if n == 0 {
        Ok((Seq::empty(), s))
    } else {
        match clusters_from(size, s, (n - 1) as nat) {
            Err(e) => Err(e),
            Ok((t, rest)) => if rest.len() == 0 || !(rest[0] is U64) {
                Err(Fault::Missing)
            } else {
                let c = rest[0]->U64_0;
                if c * 4096 >= size || keyed(t, c) {
                    Err(Fault::Cluster(c))
                } else if rest.len() < 2 || !rest[1].is_kind(
                    Kind::Packed(cluster_len(size, c) as u64),
                ) {
                    Err(Fault::Missing)
                } else {
                    Ok((put(t, c, rest[1]->Packed_0), rest.skip(1).skip(1)))
                }
            },
        }
    }
}

proof fn lemma_clusters_err(size: u64, s: Seq<Token>, i: nat, n: nat)
    requires
        i <= n,
        clusters_from(size, s, i) is Err,
    ensures
        clusters_from(size, s, n) == clusters_from(size, s, i),
    decreases n,
{
    if i < n {
        lemma_clusters_err(size, s, i, (n - 1) as nat);
    }
}

/// Clusters that were read lie in the disk.
proof fn lemma_clusters_fit(size: u64, s: Seq<Token>, n: nat)
    ensures
        clusters_from(size, s, n) matches Ok((t, _)) ==> ordered(t) && clusters_fit(size, t),
    decreases n,
{
    if n > 0 {
        lemma_clusters_fit(size, s, (n - 1) as nat);
        if let Ok((t, rest)) = clusters_from(size, s, (n - 1) as nat) {
            if clusters_from(size, s, n) is Ok {
                lemma_put_fits(size, t, rest[0]->U64_0, rest[1]->Packed_0);
            }
        }
    }
}

fn read_clusters<S: Source>(src: &mut S, size: u64, n: u64) -> (r: Result<Table<Vec<u8>>, Fault>)
    ensures
        match r {
            Ok(t) => clusters_from(size, old(src).rest(), n as nat) == Ok::<
                (Seq<(u64, Seq<u8>)>, Seq<Token>),
                Fault,
            >((t@, final(src).rest())),
            Err(e) => clusters_from(size, old(src).rest(), n as nat) == Err::<
                (Seq<(u64, Seq<u8>)>, Seq<Token>),
                Fault,
            >(e),
        },
{
    let ghost s = src.rest();
    let mut t: Table<Vec<u8>> = Table::new();
    let mut i: u64 = 0;
    while i < n
        invariant
            i <= n,
            s == old(src).rest(),
            clusters_from(size, s, i as nat) == Ok::<(Seq<(u64, Seq<u8>)>, Seq<Token>), Fault>(
                (t@, src.rest()),
            ),
        decreases n - i,
    {
        let ghost rest = src.rest();
        let c: u64 = match src.next(Kind::U64) {
            Ok(f) => f.u64(),
            Err(e) => {
                proof {
                    lemma_clusters_err(size, s, (i + 1) as nat, n as nat);
                }
                return Err(e);
            },
        };
        assert(rest.skip(1).len() > 0 ==> rest.skip(1)[0] == rest[1]);
        if !within(c, size) || t.get(c).is_some() {
            proof {
                lemma_clusters_err(size, s, (i + 1) as nat, n as nat);
            }
            return Err(Fault::Cluster(c));
        }
        let len: u64 = CowBackend::<MemBackend>::len_in(size, c);
        let data: Vec<u8> = match src.next(Kind::Packed(len)) {
            Ok(f) => f.packed(),
            Err(e) => {
                proof {
                    lemma_clusters_err(size, s, (i + 1) as nat, n as nat);
                }
                return Err(e);
            },
        };
        t.insert(c, data);
        i += 1;
    }
    Ok(t)
}

/// The cluster `c` starts in a disk of `size` bytes.
fn within(c: u64, size: u64) -> (r: bool)
    ensures
        r == (c * 4096 < size),
{
    match c.checked_mul(4096) {
        Some(at) => at < size,
        None => false,
    }
}

/// The saved layer: the size of the disk, the written clusters, the base.
pub open spec fn layer_tokens<B: SavedBlock>(m: Layered<B::Model>, digest: u64) -> Seq<Token> {
    seq![Token::U64(B::bytes(m.base)), Token::Count(m.clusters.len() as u64)] + (cluster_tokens(
        m.clusters,
        m.clusters.len(),
    ) + B::saved(m.base, digest))
}

/// The layer restored. Nothing counts as written since.
pub open spec fn layer_from<B: SavedBlock>(m: Layered<B::Model>, digest: u64, s: Seq<Token>) -> Result<
    (Layered<B::Model>, Seq<Token>),
    Fault,
> {
    if s.len() == 0 || !(s[0] is U64) {
        Err(Fault::Missing)
    } else if s[0]->U64_0 != B::bytes(m.base) {
        Err(Fault::Differs(Subject::DiskSize))
    } else if s.len() < 2 || !(s[1] is Count) {
        Err(Fault::Missing)
    } else {
        match clusters_from(B::bytes(m.base), s.skip(1).skip(1), s[1]->Count_0 as nat) {
            Err(e) => Err(e),
            Ok((clusters, rest)) => match B::revived(m.base, digest, rest) {
                Err(e) => Err(e),
                Ok((base, rest)) => Ok((Layered { base, clusters, dirty: Seq::empty() }, rest)),
            },
        }
    }
}

impl<B: SavedBlock> SavedBlock for CowBackend<B> {
    open spec fn image_of(m: Layered<B::Model>) -> Option<Seq<u8>> {
        B::image_of(m.base)
    }

    open spec fn saved(m: Layered<B::Model>, digest: u64) -> Seq<Token> {
        layer_tokens::<B>(m, digest)
    }

    open spec fn revived(m: Layered<B::Model>, digest: u64, s: Seq<Token>) -> Result<
        (Layered<B::Model>, Seq<Token>),
        Fault,
    > {
        layer_from::<B>(m, digest, s)
    }

    proof fn stays(m: Layered<B::Model>, digest: u64, s: Seq<Token>) {
        if let Ok((n, _)) = Self::revived(m, digest, s) {
            let size = B::bytes(m.base);
            let t = s.skip(1).skip(1);
            lemma_clusters_fit(size, t, s[1]->Count_0 as nat);
            if let Ok((clusters, rest)) = clusters_from(size, t, s[1]->Count_0 as nat) {
                B::stays(m.base, digest, rest);
            }
        }
    }

    fn image(&self) -> (r: Option<&[u8]>) {
        self.base.image()
    }

    fn save_state(&self, digest: u64) -> (r: Vec<Field>) {
        let ghost m = self.model();
        let mut r: Vec<Field> = Vec::new();
        r.push(Field::U64(self.base.size()));
        r.push(Field::Count(self.clusters.len() as u64));
        let ghost head = seq![Token::U64(B::bytes(m.base)), Token::Count(m.clusters.len() as u64)];
        assert(tokens(r@) =~= head);
        assert(tokens(r@) =~= head + cluster_tokens(m.clusters, 0));
        let mut i: usize = 0;
        while i < self.clusters.entries.len()
            invariant
                i <= self.clusters.entries@.len() == m.clusters.len(),
                m == self.model(),
                tokens(r@) == head + cluster_tokens(m.clusters, i as nat),
            decreases self.clusters.entries@.len() - i,
        {
            let ghost before = tokens(r@);
            add_field(&mut r, Field::U64(self.clusters.entries[i].0));
            add_field(&mut r, Field::Packed(copy_bytes(&self.clusters.entries[i].1)));
            i += 1;
            assert(tokens(r@) =~= head + cluster_tokens(m.clusters, i as nat));
        }
        append(&mut r, self.base.save_state(digest));
        assert(tokens(r@) =~= layer_tokens::<B>(m, digest));
        r
    }

    fn restore_state<S: Source>(&mut self, src: &mut S, digest: u64) -> (r: Result<(), Fault>) {
        let ghost s = src.rest();
        let ghost m = self.model();
        let size: u64 = match src.next(Kind::U64) {
            Ok(f) => f.u64(),
            Err(e) => {
                return Err(e);
            },
        };
        assert(s.skip(1).len() > 0 ==> s.skip(1)[0] == s[1]);
        if size != self.base.size() {
            return Err(Fault::Differs(Subject::DiskSize));
        }
        let n: u64 = match src.next(Kind::Count(16)) {
            Ok(f) => f.count(),
            Err(e) => {
                return Err(e);
            },
        };
        let clusters: Table<Vec<u8>> = match read_clusters(src, size, n) {
            Ok(t) => t,
            Err(e) => {
                return Err(e);
            },
        };
        match self.base.restore_state(src, digest) {
            Ok(_) => {
                self.clusters = clusters;
                self.dirty = Table::new();
                Ok(())
            },
            Err(e) => Err(e),
        }
    }
}

proof fn lemma_clusters_come_back(
    size: u64,
    clusters: Seq<(u64, Seq<u8>)>,
    n: nat,
    rest: Seq<Token>,
)
    requires
        ordered(clusters),
        clusters_fit(size, clusters),
        n <= clusters.len(),
    ensures
        clusters_from(size, cluster_tokens(clusters, n) + rest, n) == Ok::<
            (Seq<(u64, Seq<u8>)>, Seq<Token>),
            Fault,
        >((clusters.take(n as int), rest)),
    decreases n,
{
    if n == 0 {
        assert(cluster_tokens(clusters, n) + rest =~= rest);
        assert(clusters.take(0) =~= Seq::empty());
    } else {
        let e = clusters[n - 1];
        let row = seq![Token::U64(e.0), Token::Packed(e.1)];
        lemma_join(cluster_tokens(clusters, (n - 1) as nat), row, rest);
        lemma_clusters_come_back(size, clusters, (n - 1) as nat, row + rest);
        let r = row + rest;
        assert(r[0] == Token::U64(e.0));
        assert(r[1] == Token::Packed(e.1));
        assert(r.skip(1).skip(1) =~= rest);
        lemma_put_last(clusters, n - 1);
        let t = clusters.take(n - 1);
        assert forall|i: int| 0 <= i < t.len() implies (#[trigger] t[i]).0 < e.0 by {
            assert(t[i] == clusters[i]);
        }
        lemma_rank_at(t, e.0, n - 1);
        assert(!keyed(t, e.0));
    }
}

/// A layer that was saved is restored as it was, with nothing written since, if
/// the disk below it is.
pub proof fn law_layer_comes_back<B: SavedBlock>(
    m: Layered<B::Model>,
    n: Layered<B::Model>,
    digest: u64,
    rest: Seq<Token>,
)
    requires
        cow_sound::<B>(m),
        m.clusters.len() <= u64::MAX,
        B::bytes(n.base) == B::bytes(m.base),
        B::revived(n.base, digest, B::saved(m.base, digest) + rest) == Ok::<
            (B::Model, Seq<Token>),
            Fault,
        >((m.base, rest)),
    ensures
        CowBackend::<B>::revived(n, digest, CowBackend::<B>::saved(m, digest) + rest) == Ok::<
            (Layered<B::Model>, Seq<Token>),
            Fault,
        >((Layered { dirty: Seq::empty(), ..m }, rest)),
{
    let head = seq![Token::U64(B::bytes(m.base)), Token::Count(m.clusters.len() as u64)];
    let mid = cluster_tokens(m.clusters, m.clusters.len());
    let tail = B::saved(m.base, digest);
    let s = CowBackend::<B>::saved(m, digest) + rest;
    lemma_join(head, mid + tail, rest);
    lemma_join(mid, tail, rest);
    assert(s == head + (mid + (tail + rest)));
    assert(s[0] == head[0]);
    assert(s[1] == head[1]);
    assert(s.skip(1).skip(1) =~= mid + (tail + rest));
    lemma_clusters_come_back(B::bytes(m.base), m.clusters, m.clusters.len(), tail + rest);
    assert(m.clusters.take(m.clusters.len() as int) =~= m.clusters);
    assert((CowBackend::<B>::revived(n, digest, s)->Ok_0).0 =~= Layered {
        dirty: Seq::empty(),
        ..m
    });
}

// ---- Block device ---------------------------------------------------------------

pub open spec fn pairs_of(bufs: Seq<Buf>) -> Seq<(u64, u32)> {
    bufs.map_values(|b: Buf| (b.addr, b.len))
}

pub open spec fn bufs_of(pairs: Seq<(u64, u32)>) -> Seq<Buf> {
    pairs.map_values(|p: (u64, u32)| Buf { addr: p.0, len: p.1 })
}

/// A chain as it is saved.
pub open spec fn chain_row(c: Option<Chain>) -> Option<(u16, Seq<(u64, u32)>, Seq<(u64, u32)>)> {
    match c {
        Some(c) => Some((c.head, pairs_of(c.readable), pairs_of(c.writable))),
        None => None,
    }
}

pub open spec fn chain_from(c: Option<(u16, Seq<(u64, u32)>, Seq<(u64, u32)>)>) -> Option<Chain> {
    match c {
        Some(c) => Some(Chain { head: c.0, readable: bufs_of(c.1), writable: bufs_of(c.2) }),
        None => None,
    }
}

fn list_pairs(bufs: &Vec<Buf>) -> (r: Vec<(u64, u32)>)
    ensures
        r@ == pairs_of(bufs@),
{
    let mut r: Vec<(u64, u32)> = Vec::new();
    let mut i: usize = 0;
    while i < bufs.len()
        invariant
            i <= bufs@.len(),
            r@ == pairs_of(bufs@).take(i as int),
        decreases bufs@.len() - i,
    {
        r.push((bufs[i].addr, bufs[i].len));
        i += 1;
        assert(r@ =~= pairs_of(bufs@).take(i as int));
    }
    assert(r@ =~= pairs_of(bufs@));
    r
}

fn list_bufs(pairs: &Vec<(u64, u32)>) -> (r: Vec<Buf>)
    ensures
        r@ == bufs_of(pairs@),
{
    let mut r: Vec<Buf> = Vec::new();
    let mut i: usize = 0;
    while i < pairs.len()
        invariant
            i <= pairs@.len(),
            r@ == bufs_of(pairs@).take(i as int),
        decreases pairs@.len() - i,
    {
        r.push(Buf { addr: pairs[i].0, len: pairs[i].1 });
        i += 1;
        assert(r@ =~= bufs_of(pairs@).take(i as int));
    }
    assert(r@ =~= bufs_of(pairs@));
    r
}

pub open spec fn blk_kinds() -> Seq<Kind> {
    seq![Kind::U64, Kind::U64, Kind::Bytes, Kind::OptChain]
}

fn blk_kinds_list() -> (r: Vec<Kind>)
    ensures
        r@ == blk_kinds(),
{
    let mut r: Vec<Kind> = Vec::new();
    r.push(Kind::U64);
    r.push(Kind::U64);
    r.push(Kind::Bytes);
    r.push(Kind::OptChain);
    assert(r@ =~= blk_kinds());
    r
}

/// What of the device is saved before its disk.
pub open spec fn blk_row<B: SavedBlock>(s: Blk<B::Model>) -> Seq<Token> {
    seq![
        Token::U64(blk_capacity::<B>(s)),
        Token::U64(flag(blk_locked::<B>(s))),
        Token::Bytes(s.cfg.serial),
        Token::OptChain(chain_row(s.pending)),
    ]
}

/// The saved device: its configuration, the request that waits, its disk.
pub open spec fn blk_tokens<B: SavedBlock>(s: Blk<B::Model>, digest: u64) -> Seq<Token> {
    blk_row::<B>(s) + B::saved(s.disk, digest)
}

/// The lengths of the request that waits can be told in 64 bits.
pub open spec fn waits_well(c: Option<Chain>) -> bool {
    c matches Some(c) ==> c.countable()
}

/// The device restored. The disk attached must be the same.
pub open spec fn blk_from<B: SavedBlock>(s: Blk<B::Model>, digest: u64, t: Seq<Token>) -> Result<
    (Blk<B::Model>, Seq<Token>),
    Fault,
> {
    if !fits(t, blk_kinds()) {
        Err(Fault::Missing)
    } else if t[0]->U64_0 != blk_capacity::<B>(s) {
        Err(Fault::Differs(Subject::Sectors))
    } else if t[1]->U64_0 != flag(blk_locked::<B>(s)) {
        Err(Fault::Differs(Subject::DiskReadOnly))
    } else if t[2]->Bytes_0 != s.cfg.serial {
        Err(Fault::Differs(Subject::DiskSerial))
    } else {
        match B::revived(s.disk, digest, t.skip(4)) {
            Err(e) => Err(e),
            Ok((disk, rest)) => Ok(
                (Blk { disk, pending: chain_from(t[3]->OptChain_0), ..s }, rest),
            ),
        }
    }
}

impl<B: SavedBlock> VirtioBlk<B> {
    pub fn save_state(&self, digest: u64) -> (r: Vec<Field>)
        requires
            self.wf(),
        ensures
            tokens(r@) == blk_tokens::<B>(self@, digest),
    {
        let mut r: Vec<Field> = Vec::new();
        r.push(Field::U64(self.capacity()));
        r.push(Field::U64(flag_of(self.is_read_only())));
        r.push(Field::Bytes(copy_bytes(&self.cfg.serial)));
        r.push(
            Field::OptChain(
                match &self.pending {
                    Some(c) => Some((c.head, list_pairs(&c.readable), list_pairs(&c.writable))),
                    None => None,
                },
            ),
        );
        assert(tokens(r@) =~= blk_row::<B>(self@));
        append(&mut r, self.backend.save_state(digest));
        r
    }

    /// Restores a saved device. The request that waits is taken as it was saved:
    /// see [`VirtioBlk::is_sound`].
    pub fn restore_state<S: Source>(&mut self, src: &mut S, digest: u64) -> (r: Result<(), Fault>)
        requires
            B::sound(old(self)@.disk),
        ensures
            final(self).wf() == waits_well(final(self)@.pending),
            match r {
                Ok(_) => blk_from::<B>(old(self)@, digest, old(src).rest()) == Ok::<
                    (Blk<B::Model>, Seq<Token>),
                    Fault,
                >((final(self)@, final(src).rest())),
                Err(e) => {
                    &&& blk_from::<B>(old(self)@, digest, old(src).rest()) == Err::<
                        (Blk<B::Model>, Seq<Token>),
                        Fault,
                    >(e)
                    &&& final(self)@ == old(self)@
                },
            },
    {
        let ghost t = src.rest();
        let ghost disk = self@.disk;
        let kinds: Vec<Kind> = blk_kinds_list();
        let row: Vec<Field> = match read_row(src, kinds.as_slice()) {
            Ok(row) => row,
            Err(e) => {
                return Err(e);
            },
        };
        assert(t[0].is_kind(blk_kinds()[0]));
        assert(t[1].is_kind(blk_kinds()[1]));
        assert(t[2].is_kind(blk_kinds()[2]));
        assert(t[3].is_kind(blk_kinds()[3]));
        if row[0].u64() != self.capacity() {
            return Err(Fault::Differs(Subject::Sectors));
        }
        if row[1].u64() != flag_of(self.is_read_only()) {
            return Err(Fault::Differs(Subject::DiskReadOnly));
        }
        let serial: Vec<u8> = row[2].bytes();
        if !crate::bytes::same_bytes(serial.as_slice(), self.cfg.serial.as_slice()) {
            return Err(Fault::Differs(Subject::DiskSerial));
        }
        let pending: Option<DescChain> = match row[3].opt_chain() {
            Some(c) => Some(
                DescChain { head: c.0, readable: list_bufs(&c.1), writable: list_bufs(&c.2) },
            ),
            None => None,
        };
        assert(chain_view(pending) =~= chain_from(t[3]->OptChain_0));
        proof {
            B::stays(disk, digest, src.rest());
        }
        match self.backend.restore_state(src, digest) {
            Ok(_) => {
                self.pending = pending;
                Ok(())
            },
            Err(e) => Err(e),
        }
    }
}

impl<B: SavedBlock> VirtioBlk<B> {
    /// Whether the lengths of the request that waits can be told in 64 bits, as
    /// those of every request that a queue gives. A device goes on after a restore
    /// only if they can.
    pub fn is_sound(&self) -> (r: bool)
        ensures
            r == waits_well(self@.pending),
    {
        match &self.pending {
            Some(c) => can_sum(&c.readable) && can_sum(&c.writable),
            None => true,
        }
    }
}

/// A block device that was saved is restored as it was, on a device with the same
/// configuration whose disk is restored.
pub proof fn law_block_device_comes_back<B: SavedBlock>(
    s: Blk<B::Model>,
    n: Blk<B::Model>,
    digest: u64,
    rest: Seq<Token>,
)
    requires
        n.cfg == s.cfg,
        B::bytes(n.disk) == B::bytes(s.disk),
        B::locked(n.disk) == B::locked(s.disk),
        B::revived(n.disk, digest, B::saved(s.disk, digest) + rest) == Ok::<
            (B::Model, Seq<Token>),
            Fault,
        >((s.disk, rest)),
    ensures
        blk_from::<B>(n, digest, blk_tokens::<B>(s, digest) + rest) == Ok::<
            (Blk<B::Model>, Seq<Token>),
            Fault,
        >((s, rest)),
{
    let row = blk_row::<B>(s);
    lemma_join(row, B::saved(s.disk, digest), rest);
    assert(row[0] == Token::U64(blk_capacity::<B>(s)));
    assert(row[1] == Token::U64(flag(blk_locked::<B>(s))));
    assert(row[2] == Token::Bytes(s.cfg.serial));
    assert(row[3] == Token::OptChain(chain_row(s.pending)));
    law_row_comes_back(row, blk_kinds(), B::saved(s.disk, digest) + rest);
    if let Some(c) = s.pending {
        assert(bufs_of(pairs_of(c.readable)) =~= c.readable);
        assert(bufs_of(pairs_of(c.writable)) =~= c.writable);
    }
    assert(chain_from(chain_row(s.pending)) =~= s.pending);
}

} // verus!
