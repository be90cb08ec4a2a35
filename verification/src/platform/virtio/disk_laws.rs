//! What a write through the copy-on-write layer changes, and what it does not.
use vstd::prelude::*;
use crate::bytes::{min_len, patched};
use crate::platform::virtio::disk::{cluster_len, cow_cluster, cow_read, cow_sound, cow_write, in_range, lemma_put_fits, lemma_value_len, BlockBackend, BlockError, CowBackend, Layered, MemBackend, Platter};
use crate::table::{keyed, law_table_put, put, value};

verus! {

/// In a state that `good` allows, a read gives what stands in `img` and leads to
/// such a state again.
pub open spec fn reads_at<B: BlockBackend>(
    good: spec_fn(B::Model) -> bool,
    img: Seq<u8>,
    m: B::Model,
    sector: u64,
    n: nat,
) -> bool {
    good(m) && sector * 512 + n <= img.len() && n % 512 == 0 ==> {
        &&& B::bytes(m) == img.len()
        &&& B::read_result(m, sector, n) == Ok::<Seq<u8>, BlockError>(
            img.subrange(sector * 512, sector * 512 + n),
        )
        &&& good(B::read_next(m, sector, n))
    }
}

/// A disk that holds `img` as long as it is only read: `good` are the states that
/// it goes through.
pub open spec fn holds_image<B: BlockBackend>(
    good: spec_fn(B::Model) -> bool,
    img: Seq<u8>,
) -> bool {
    &&& img.len() <= u64::MAX
    &&& img.len() % 512 == 0
    &&& forall|m: B::Model, sector: u64, n: nat| #[trigger] reads_at::<B>(good, img, m, sector, n)
}

/// The bytes of the disk: those of the written clusters, else those of the base.
pub open spec fn seen(img: Seq<u8>, clusters: Seq<(u64, Seq<u8>)>) -> Seq<u8> {
    Seq::new(
        img.len(),
        |i: int|
            if keyed(clusters, (i / 4096) as u64) {
                value(clusters, (i / 4096) as u64)[i % 4096]
            } else {
                img[i]
            },
    )
}

/// The layer stands over a base that holds `img`.
pub open spec fn layered_over<B: BlockBackend>(
    s: Layered<B::Model>,
    good: spec_fn(B::Model) -> bool,
    img: Seq<u8>,
) -> bool {
    cow_sound::<B>(s) && good(s.base) && B::bytes(s.base) == img.len()
}

proof fn lemma_reads_seen<B: BlockBackend>(
    s: Layered<B::Model>,
    good: spec_fn(B::Model) -> bool,
    img: Seq<u8>,
    at: int,
    n: nat,
)
    requires
        holds_image::<B>(good, img),
        layered_over::<B>(s, good, img),
        0 <= at,
        at % 512 == 0,
        n % 512 == 0,
        at + n <= img.len(),
    ensures
        cow_read::<B>(s, at, n).1 == Ok::<Seq<u8>, BlockError>(
            seen(img, s.clusters).subrange(at, at + n),
        ),
        layered_over::<B>(cow_read::<B>(s, at, n).0, good, img),
        cow_read::<B>(s, at, n).0.clusters == s.clusters,
        cow_read::<B>(s, at, n).0.dirty == s.dirty,
    decreases n,
{
    let all = seen(img, s.clusters);
    if n == 0 {
        assert(all.subrange(at, at) =~= Seq::empty());
    } else {
        let c = (at / 4096) as u64;
        let off = at % 4096;
        let k = min_len((4096 - off) as nat, n);
        let here = all.subrange(at, at + k);
        assert forall|j: int| 0 <= j < k implies #[trigger] here[j] == (if keyed(s.clusters, c) {
            value(s.clusters, c)[off + j]
        } else {
            img[at + j]
        }) by {
            assert((at + j) / 4096 == at / 4096 && (at + j) % 4096 == off + j);
        }
        let s1 = if keyed(s.clusters, c) {
            s
        } else {
            Layered { base: B::read_next(s.base, (at / 512) as u64, k), ..s }
        };
        if keyed(s.clusters, c) {
            lemma_value_len(B::bytes(s.base), s.clusters, c);
            assert(value(s.clusters, c).subrange(off, off + k) =~= here);
        } else {
            assert(((at / 512) as u64) * 512 == at);
            assert(k % 512 == 0);
            assert(reads_at::<B>(good, img, s.base, (at / 512) as u64, k));
            B::steady(s.base, (at / 512) as u64);
            assert(img.subrange(at, at + k) =~= here);
        }
        assert(layered_over::<B>(s1, good, img));
        if n > k {
            lemma_reads_seen::<B>(s1, good, img, at + k, (n - k) as nat);
        } else {
            assert(all.subrange(at + k, at + k) =~= Seq::empty());
        }
        assert(here + all.subrange(at + k, at + n) =~= all.subrange(at, at + n));
    }
}

proof fn lemma_write_seen<B: BlockBackend>(
    s: Layered<B::Model>,
    good: spec_fn(B::Model) -> bool,
    img: Seq<u8>,
    at: int,
    data: Seq<u8>,
)
    requires
        holds_image::<B>(good, img),
        layered_over::<B>(s, good, img),
        0 <= at,
        at % 512 == 0,
        data.len() % 512 == 0,
        at + data.len() <= img.len(),
    ensures
        cow_write::<B>(s, at, data).1 is Ok,
        layered_over::<B>(cow_write::<B>(s, at, data).0, good, img),
        seen(img, cow_write::<B>(s, at, data).0.clusters) == patched(
            seen(img, s.clusters),
            at,
            data,
        ),
    decreases data.len(),
{
    let all = seen(img, s.clusters);
    if data.len() == 0 {
        assert(patched(all, at, data) =~= all);
    } else {
        let c = (at / 4096) as u64;
        let off = at % 4096;
        let k = min_len((4096 - off) as nat, data.len());
        let size = B::bytes(s.base);
        let len = cluster_len(size, c);
        let (s1, r) = cow_cluster::<B>(s, c, k);
        assert(c * 4096 + off == at);
        assert(len == min_len((size - c * 4096) as nat, 4096));
        if keyed(s.clusters, c) {
            lemma_value_len(size, s.clusters, c);
        } else if k < len {
            let from = (c * 4096 / 512) as u64;
            assert(from * 512 == c * 4096);
            assert(len % 512 == 0);
            assert(reads_at::<B>(good, img, s.base, from, len));
            B::steady(s.base, from);
        }
        let whole = r->Ok_0;
        let d = patched(whole, off, data.take(k as int));
        let s2 = Layered { clusters: put(s1.clusters, c, d), dirty: put(s1.dirty, c, true), ..s1 };
        lemma_put_fits(size, s1.clusters, c, d);
        law_table_put(s1.dirty, c, true, c);
        assert(layered_over::<B>(s2, good, img));
        let mid = seen(img, s2.clusters);
        assert(mid =~= patched(all, at, data.take(k as int))) by {
            assert forall|i: int| 0 <= i < img.len() implies mid[i] == patched(
                all,
                at,
                data.take(k as int),
            )[i] by {
                let b = (i / 4096) as u64;
                law_table_put(s1.clusters, c, d, b);
                if b == c {
                    assert(i == c * 4096 + i % 4096);
                    assert(i % 4096 < len);
                    if !keyed(s.clusters, c) && k < len {
                        assert(whole[i % 4096] == img[i]);
                    }
                }
            }
        }
        if data.len() > k {
            lemma_write_seen::<B>(s2, good, img, at + k, data.skip(k as int));
        } else {
            assert(data.skip(k as int) =~= Seq::empty());
        }
        assert(patched(mid, at + k, data.skip(k as int)) =~= patched(all, at, data));
    }
}

/// Over a base that can be read, a write through the layer succeeds and changes
/// the bytes of its range and no others; the base is only read, and holds what it
/// held. Past the end of the disk a write is refused and changes nothing.
pub proof fn law_cow_write_changes_its_range_only<B: BlockBackend>(
    m: Layered<B::Model>,
    good: spec_fn(B::Model) -> bool,
    img: Seq<u8>,
    sector: u64,
    data: Seq<u8>,
    other: u64,
    n: nat,
)
    requires
        holds_image::<B>(good, img),
        layered_over::<B>(m, good, img),
        data.len() % 512 == 0,
        in_range(B::bytes(m.base), other, n),
    ensures
        ({
            let after = CowBackend::<B>::write_next(m, sector, data);
            let was = seen(img, m.clusters);
            let from = other * 512;
            &&& layered_over::<B>(after, good, img)
            &&& CowBackend::<B>::read_result(m, other, n) == Ok::<Seq<u8>, BlockError>(
                was.subrange(from, from + n),
            )
            &&& if sector * 512 + data.len() <= B::bytes(m.base) {
                &&& CowBackend::<B>::write_result(m, sector, data) is Ok
                &&& CowBackend::<B>::read_result(after, other, n) == Ok::<Seq<u8>, BlockError>(
                    patched(was, sector * 512, data).subrange(from, from + n),
                )
            } else {
                &&& CowBackend::<B>::write_result(m, sector, data) == Err::<(), BlockError>(
                    BlockError::OutOfRange,
                )
                &&& after == m
            }
        }),
{
    let after = CowBackend::<B>::write_next(m, sector, data);
    lemma_reads_seen::<B>(m, good, img, other * 512, n);
    if sector * 512 + data.len() <= B::bytes(m.base) {
        lemma_write_seen::<B>(m, good, img, sector * 512, data);
        lemma_reads_seen::<B>(after, good, img, other * 512, n);
    }
}

/// A write through the layer leaves a disk in memory below it as it was.
pub proof fn law_cow_leaves_the_memory_below(m: Layered<Platter>, sector: u64, data: Seq<u8>)
    requires
        CowBackend::<MemBackend>::sound(m),
        m.base.data.len() % 512 == 0,
        data.len() % 512 == 0,
    ensures
        CowBackend::<MemBackend>::write_next(m, sector, data).base == m.base,
{
    let good = |p: Platter| p == m.base;
    let img = m.base.data;
    if sector * 512 + data.len() <= MemBackend::bytes(m.base) {
        assert(holds_image::<MemBackend>(good, img)) by {
            assert forall|p: Platter, sector: u64, n: nat| #[trigger]
                reads_at::<MemBackend>(good, img, p, sector, n) by {}
        }
        lemma_write_seen::<MemBackend>(m, good, img, sector * 512, data);
    }
}

} // verus!
