//! Tables ordered by a number, with deterministic iteration.
use vstd::prelude::*;

verus! {

/// Entries in ascending order of their key.
#[derive(Debug)]
pub struct Table<V> {
    pub entries: Vec<(u64, V)>,
}

/// What the entries say.
pub open spec fn viewed<V: View>(s: Seq<(u64, V)>) -> Seq<(u64, V::V)> {
    s.map_values(|e: (u64, V)| (e.0, e.1@))
}

impl<V: View> View for Table<V> {
    type V = Seq<(u64, V::V)>;

    open spec fn view(&self) -> Seq<(u64, V::V)> {
        viewed(self.entries@)
    }
}

/// Every key once, in ascending order.
pub open spec fn ordered<M>(s: Seq<(u64, M)>) -> bool {
    forall|i: int, j: int| 0 <= i < j < s.len() ==> (#[trigger] s[i]).0 < (#[trigger] s[j]).0
}

/// How many leading entries have a smaller key.
pub open spec fn rank<M>(s: Seq<(u64, M)>, id: u64) -> int
    decreases s.len(),
{
    if s.len() == 0 || s[0].0 >= id { 0 } else { 1 + rank(s.skip(1), id) }
}

/// The table has an entry for `id`.
pub open spec fn keyed<M>(s: Seq<(u64, M)>, id: u64) -> bool {
    rank(s, id) < s.len() && s[rank(s, id)].0 == id
}

/// The value of `id`.
pub open spec fn value<M>(s: Seq<(u64, M)>, id: u64) -> M {
    s[rank(s, id)].1
}

/// The table with `m` as the value of `id`.
pub open spec fn put<M>(s: Seq<(u64, M)>, id: u64, m: M) -> Seq<(u64, M)> {
    if keyed(s, id) { s.update(rank(s, id), (id, m)) } else { s.insert(rank(s, id), (id, m)) }
}

/// The table without `id`.
pub open spec fn without<M>(s: Seq<(u64, M)>, id: u64) -> Seq<(u64, M)> {
    if keyed(s, id) { s.remove(rank(s, id)) } else { s }
}

pub proof fn lemma_rank<M>(s: Seq<(u64, M)>, id: u64)
    ensures
        0 <= rank(s, id) <= s.len(),
        forall|i: int| 0 <= i < rank(s, id) ==> (#[trigger] s[i]).0 < id,
        rank(s, id) < s.len() ==> s[rank(s, id)].0 >= id,
    decreases s.len(),
{
    if s.len() > 0 && s[0].0 < id {
        lemma_rank(s.skip(1), id);
        assert forall|i: int| 0 <= i < rank(s, id) implies (#[trigger] s[i]).0 < id by {
            if i > 0 {
                assert(s.skip(1)[i - 1] == s[i]);
            }
        }
    }
}

pub proof fn lemma_rank_at<M>(s: Seq<(u64, M)>, id: u64, i: int)
    requires
        0 <= i <= s.len(),
        forall|k: int| 0 <= k < i ==> (#[trigger] s[k]).0 < id,
        i < s.len() ==> s[i].0 >= id,
    ensures
        rank(s, id) == i,
    decreases s.len(),
{
    if i > 0 {
        assert(s[0].0 < id);
        assert forall|k: int| 0 <= k < i - 1 implies (#[trigger] s.skip(1)[k]).0 < id by {
            assert(s.skip(1)[k] == s[k + 1]);
        }
        lemma_rank_at(s.skip(1), id, i - 1);
    }
}

/// A value that is put is found again, the others stay as they were, and the
/// order is kept.
pub proof fn law_table_put<M>(s: Seq<(u64, M)>, id: u64, m: M, other: u64)
    requires
        ordered(s),
    ensures
        ordered(put(s, id, m)),
        keyed(put(s, id, m), id),
        value(put(s, id, m), id) == m,
        other != id ==> keyed(put(s, id, m), other) == keyed(s, other),
        other != id && keyed(s, other) ==> value(put(s, id, m), other) == value(s, other),
{
    lemma_rank(s, id);
    lemma_rank(s, other);
    let r = rank(s, id);
    let t = put(s, id, m);
    assert(ordered(t)) by {
        assert forall|i: int, j: int| 0 <= i < j < t.len() implies (#[trigger] t[i]).0 < (
        #[trigger] t[j]).0 by {
            if !keyed(s, id) && r < s.len() {
                assert(s[r].0 > id);
            }
        }
    }
    lemma_rank_at(t, id, r);
    if other != id {
        let q = rank(s, other);
        if keyed(s, id) {
            lemma_rank_at(t, other, q);
        } else if other < id {
            assert(q <= r) by {
                if q > r {
                    assert(s[r].0 < other);
                }
            }
            lemma_rank_at(t, other, q);
        } else {
            assert(q >= r) by {
                if q < r {
                    assert(s[q].0 < id);
                }
            }
            assert forall|k: int| 0 <= k < q + 1 implies (#[trigger] t[k]).0 < other by {
                if k > r {
                    assert(t[k] == s[k - 1]);
                }
            }
            lemma_rank_at(t, other, q + 1);
        }
    }
}

/// An entry that is taken out is gone, the others stay, and the order is kept.
pub proof fn law_table_without<M>(s: Seq<(u64, M)>, id: u64, other: u64)
    requires
        ordered(s),
    ensures
        ordered(without(s, id)),
        !keyed(without(s, id), id),
        other != id ==> keyed(without(s, id), other) == keyed(s, other),
        other != id && keyed(s, other) ==> value(without(s, id), other) == value(s, other),
{
    lemma_rank(s, id);
    lemma_rank(s, other);
    if keyed(s, id) {
        let r = rank(s, id);
        let t = without(s, id);
        assert(ordered(t)) by {
            assert forall|i: int, j: int| 0 <= i < j < t.len() implies (#[trigger] t[i]).0 < (
            #[trigger] t[j]).0 by {
                assert(t[i] == if i < r { s[i] } else { s[i + 1] });
                assert(t[j] == if j < r { s[j] } else { s[j + 1] });
            }
        }
        if r < t.len() {
            assert(t[r] == s[r + 1]);
            assert(s[r].0 < s[r + 1].0);
        }
        lemma_rank_at(t, id, r);
        if other != id {
            let q = rank(s, other);
            if other < id {
                assert(q <= r) by {
                    if q > r {
                        assert(s[r].0 < other);
                    }
                }
                if q < t.len() {
                    assert(t[q] == if q < r { s[q] } else { s[q + 1] });
                }
                if q == r && r < t.len() {
                    assert(s[r].0 < s[r + 1].0);
                }
                lemma_rank_at(t, other, q);
            } else {
                assert(q > r) by {
                    if q <= r {
                        assert(s[q].0 >= other);
                        if q < r {
                            assert(s[q].0 < id);
                        }
                    }
                }
                assert forall|k: int| 0 <= k < q - 1 implies (#[trigger] t[k]).0 < other by {
                    assert(t[k] == if k < r { s[k] } else { s[k + 1] });
                }
                lemma_rank_at(t, other, q - 1);
            }
        }
    }
}

impl<V: View> Table<V> {
    pub fn new() -> (r: Self)
        ensures
            r@ == Seq::<(u64, V::V)>::empty(),
    {
        let r = Table { entries: Vec::new() };
        assert(r@ =~= Seq::<(u64, V::V)>::empty());
        r
    }

    pub fn len(&self) -> (r: usize)
        ensures
            r == self@.len(),
    {
        self.entries.len()
    }

    /// How many leading entries have a smaller key.
    fn place(&self, id: u64) -> (r: usize)
        ensures
            r == rank(self@, id),
            r <= self.entries@.len(),
    {
        let mut i: usize = 0;
        while i < self.entries.len() && self.entries[i].0 < id
            invariant
                i <= self.entries@.len(),
                forall|k: int| 0 <= k < i ==> (#[trigger] self@[k]).0 < id,
            decreases self.entries@.len() - i,
        {
            assert(self@[i as int].0 == self.entries@[i as int].0);
            i += 1;
        }
        proof {
            lemma_rank_at(self@, id, i as int);
        }
        i
    }

    /// Where the entry for `id` is.
    pub fn find(&self, id: u64) -> (r: Option<usize>)
        ensures
            match r {
                Some(i) => keyed(self@, id) && i == rank(self@, id) && i < self.entries@.len(),
                None => !keyed(self@, id),
            },
    {
        let i: usize = self.place(id);
        if i < self.entries.len() && self.entries[i].0 == id { Some(i) } else { None }
    }

    /// The value of `id`.
    pub fn get(&self, id: u64) -> (r: Option<&V>)
        ensures
            match r {
                Some(v) => keyed(self@, id) && v@ == value(self@, id),
                None => !keyed(self@, id),
            },
    {
        match self.find(id) {
            Some(i) => Some(&self.entries[i].1),
            None => None,
        }
    }

    /// The entry at `i`, to change its value in place.
    pub fn slot(&mut self, i: usize) -> (r: &mut V)
        requires
            i < old(self).entries@.len(),
        ensures
            r@ == old(self)@[i as int].1,
            *r == old(self).entries@[i as int].1,
            final(self).entries@ == old(self).entries@.update(
                i as int,
                (old(self).entries@[i as int].0, *final(r)),
            ),
            final(self)@ == old(self)@.update(i as int, (old(self)@[i as int].0, final(r)@)),
    {
        let r = &mut self.entries[i].1;
        proof {
            assert forall|x: V|
                viewed(old(self).entries@.update(i as int, (old(self).entries@[i as int].0, x)))
                    == old(self)@.update(i as int, (old(self)@[i as int].0, x@)) by {
                assert(viewed(
                    old(self).entries@.update(i as int, (old(self).entries@[i as int].0, x)),
                ) =~= old(self)@.update(i as int, (old(self)@[i as int].0, x@)));
            }
        }
        r
    }

    /// Puts `v` as the value of `id`.
    pub fn insert(&mut self, id: u64, v: V)
        ensures
            final(self)@ == put(old(self)@, id, v@),
    {
        let i: usize = self.place(id);
        if i < self.entries.len() && self.entries[i].0 == id {
            self.entries.set(i, (id, v));
        } else {
            self.entries.insert(i, (id, v));
        }
        assert(self@ =~= put(old(self)@, id, v@));
    }

    /// Takes the entry for `id` out.
    pub fn remove(&mut self, id: u64) -> (r: Option<V>)
        ensures
            final(self)@ == without(old(self)@, id),
            match r {
                Some(v) => keyed(old(self)@, id) && v@ == value(old(self)@, id),
                None => !keyed(old(self)@, id),
            },
    {
        match self.find(id) {
            Some(i) => {
                let e: (u64, V) = self.entries.remove(i);
                assert(self@ =~= without(old(self)@, id));
                Some(e.1)
            },
            None => None,
        }
    }
}

} // verus!
