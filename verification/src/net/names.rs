//! Host names and the addresses they stand for.
use vstd::prelude::*;
use vstd::utf8::{encode_utf8, encode_utf8_decode_utf8};
use crate::net::addr::Ipv4Addr;

verus! {

/// Names in ascending order of their bytes, each with an address.
#[derive(Debug)]
pub struct NameTable {
    pub entries: Vec<(String, Ipv4Addr)>,
}

/// What the entries say.
pub open spec fn named(s: Seq<(String, Ipv4Addr)>) -> Seq<(Seq<char>, Ipv4Addr)> {
    s.map_values(|e: (String, Ipv4Addr)| (e.0@, e.1))
}

impl View for NameTable {
    type V = Seq<(Seq<char>, Ipv4Addr)>;

    open spec fn view(&self) -> Seq<(Seq<char>, Ipv4Addr)> {
        named(self.entries@)
    }
}

/// `a` comes before `b` in dictionary order.
pub open spec fn bytes_before(a: Seq<u8>, b: Seq<u8>) -> bool
    decreases a.len(),
{
    if b.len() == 0 {
        false
    } else if a.len() == 0 {
        true
    } else if a[0] != b[0] {
        a[0] < b[0]
    } else {
        bytes_before(a.skip(1), b.skip(1))
    }
}

/// The order of names: that of their bytes.
pub open spec fn name_before(a: Seq<char>, b: Seq<char>) -> bool {
    bytes_before(encode_utf8(a), encode_utf8(b))
}

/// How many leading entries have an earlier name.
pub open spec fn name_rank(s: Seq<(Seq<char>, Ipv4Addr)>, name: Seq<char>) -> int
    decreases s.len(),
{
    if s.len() == 0 || !name_before(s[0].0, name) { 0 } else { 1 + name_rank(s.skip(1), name) }
}

/// The table has the name.
pub open spec fn knows(s: Seq<(Seq<char>, Ipv4Addr)>, name: Seq<char>) -> bool {
    name_rank(s, name) < s.len() && s[name_rank(s, name)].0 == name
}

/// The address of the name.
pub open spec fn addr_of(s: Seq<(Seq<char>, Ipv4Addr)>, name: Seq<char>) -> Option<Ipv4Addr> {
    if knows(s, name) { Some(s[name_rank(s, name)].1) } else { None }
}

/// The table with `a` as the address of the name.
pub open spec fn assigned(
    s: Seq<(Seq<char>, Ipv4Addr)>,
    name: Seq<char>,
    a: Ipv4Addr,
) -> Seq<(Seq<char>, Ipv4Addr)> {
    if knows(s, name) {
        s.update(name_rank(s, name), (name, a))
    } else {
        s.insert(name_rank(s, name), (name, a))
    }
}

fn is_before(a: &[u8], b: &[u8]) -> (r: bool)
    ensures
        r == bytes_before(a@, b@),
{
    let mut i: usize = 0;
    assert(a@.skip(0) =~= a@ && b@.skip(0) =~= b@);
    while i < a.len() && i < b.len() && a[i] == b[i]
        invariant
            i <= a@.len(),
            i <= b@.len(),
            bytes_before(a@, b@) == bytes_before(a@.skip(i as int), b@.skip(i as int)),
        decreases a@.len() - i,
    {
        assert(a@.skip(i as int).skip(1) =~= a@.skip(i + 1));
        assert(b@.skip(i as int).skip(1) =~= b@.skip(i + 1));
        i += 1;
    }
    i < b.len() && (i >= a.len() || a[i] < b[i])
}

proof fn lemma_name_rank_at(s: Seq<(Seq<char>, Ipv4Addr)>, name: Seq<char>, i: int)
    requires
        0 <= i <= s.len(),
        forall|k: int| 0 <= k < i ==> name_before((#[trigger] s[k]).0, name),
        i < s.len() ==> !name_before(s[i].0, name),
    ensures
        name_rank(s, name) == i,
    decreases s.len(),
{
    if i > 0 {
        assert(name_before(s[0].0, name));
        assert forall|k: int| 0 <= k < i - 1 implies name_before(
            (#[trigger] s.skip(1)[k]).0,
            name,
        ) by {
            assert(s.skip(1)[k] == s[k + 1]);
        }
        lemma_name_rank_at(s.skip(1), name, i - 1);
    }
}

impl NameTable {
    pub fn new() -> (r: Self)
        ensures
            r@ == Seq::<(Seq<char>, Ipv4Addr)>::empty(),
    {
        let r = NameTable { entries: Vec::new() };
        assert(r@ =~= Seq::<(Seq<char>, Ipv4Addr)>::empty());
        r
    }

    pub fn len(&self) -> (r: usize)
        ensures
            r == self@.len(),
    {
        self.entries.len()
    }

    fn place(&self, name: &str) -> (r: usize)
        ensures
            r == name_rank(self@, name@),
            r <= self.entries@.len(),
    {
        let mut i: usize = 0;
        while i < self.entries.len() && is_before(
            self.entries[i].0.as_str().as_bytes(),
            name.as_bytes(),
        )
            invariant
                i <= self.entries@.len(),
                forall|k: int| 0 <= k < i ==> name_before((#[trigger] self@[k]).0, name@),
            decreases self.entries@.len() - i,
        {
            assert(self@[i as int].0 == self.entries@[i as int].0@);
            i += 1;
        }
        proof {
            lemma_name_rank_at(self@, name@, i as int);
        }
        i
    }

    /// The address of a name.
    pub fn get(&self, name: &String) -> (r: Option<Ipv4Addr>)
        ensures
            r == addr_of(self@, name@),
    {
        let i: usize = self.place(name.as_str());
        if i < self.entries.len() && self.entries[i].0 == *name {
            Some(self.entries[i].1)
        } else {
            None
        }
    }

    /// Gives a name an address.
    pub fn insert(&mut self, name: String, a: Ipv4Addr)
        ensures
            final(self)@ == assigned(old(self)@, name@, a),
    {
        let i: usize = self.place(name.as_str());
        let present: bool = i < self.entries.len() && self.entries[i].0 == name;
        if present {
            let old_name: String = name;
            self.entries.set(i, (old_name, a));
        } else {
            self.entries.insert(i, (name, a));
        }
        assert(self@ =~= assigned(old(self)@, name@, a));
    }
}

/// A name that is given an address is found again with it.
pub proof fn law_assigned_name_is_known(
    s: Seq<(Seq<char>, Ipv4Addr)>,
    name: Seq<char>,
    a: Ipv4Addr,
)
    ensures
        addr_of(assigned(s, name, a), name) == Some(a),
{
    lemma_name_rank(s, name);
    let r = name_rank(s, name);
    let t = assigned(s, name, a);
    assert(!name_before(name, name)) by {
        lemma_not_before_itself(encode_utf8(name));
    }
    assert forall|k: int| 0 <= k < r implies name_before((#[trigger] t[k]).0, name) by {
        assert(t[k] == s[k]);
    }
    lemma_name_rank_at(t, name, r);
}

pub proof fn lemma_name_rank(s: Seq<(Seq<char>, Ipv4Addr)>, name: Seq<char>)
    ensures
        0 <= name_rank(s, name) <= s.len(),
        forall|k: int| 0 <= k < name_rank(s, name) ==> name_before((#[trigger] s[k]).0, name),
    decreases s.len(),
{
    if s.len() > 0 && name_before(s[0].0, name) {
        lemma_name_rank(s.skip(1), name);
        assert forall|k: int| 0 <= k < name_rank(s, name) implies name_before(
            (#[trigger] s[k]).0,
            name,
        ) by {
            if k > 0 {
                assert(s.skip(1)[k - 1] == s[k]);
            }
        }
    }
}

proof fn lemma_not_before_itself(a: Seq<u8>)
    ensures
        !bytes_before(a, a),
    decreases a.len(),
{
    if a.len() > 0 {
        lemma_not_before_itself(a.skip(1));
    }
}

/// Every name once, in order.
pub open spec fn names_ordered(s: Seq<(Seq<char>, Ipv4Addr)>) -> bool {
    &&& forall|i: int, j: int|
        0 <= i < j < s.len() ==> name_before((#[trigger] s[i]).0, (#[trigger] s[j]).0)
}

/// Names assigned in order stand in order.
pub proof fn lemma_assign_last(s: Seq<(Seq<char>, Ipv4Addr)>, n: int)
    requires
        names_ordered(s),
        0 <= n < s.len(),
    ensures
        assigned(s.take(n), s[n].0, s[n].1) == s.take(n + 1),
{
    let t = s.take(n);
    assert forall|k: int| 0 <= k < n implies name_before((#[trigger] t[k]).0, s[n].0) by {
        assert(t[k] == s[k]);
    }
    lemma_name_rank_at(t, s[n].0, n);
    assert(assigned(t, s[n].0, s[n].1) =~= s.take(n + 1));
}

proof fn lemma_before_transitive(a: Seq<u8>, b: Seq<u8>, c: Seq<u8>)
    requires
        bytes_before(a, b),
        bytes_before(b, c),
    ensures
        bytes_before(a, c),
    decreases a.len(),
{
    if a.len() > 0 && b.len() > 0 && c.len() > 0 && a[0] == b[0] && b[0] == c[0] {
        lemma_before_transitive(a.skip(1), b.skip(1), c.skip(1));
    }
}

proof fn lemma_before_total(a: Seq<u8>, b: Seq<u8>)
    requires
        a != b,
    ensures
        bytes_before(a, b) || bytes_before(b, a),
    decreases a.len(),
{
    if a.len() == 0 || b.len() == 0 {
        if a.len() == 0 && b.len() == 0 {
            assert(a =~= b);
        }
    } else if a[0] == b[0] {
        if a.skip(1) == b.skip(1) {
            assert(a =~= seq![a[0]] + a.skip(1));
            assert(b =~= seq![b[0]] + b.skip(1));
        }
        lemma_before_total(a.skip(1), b.skip(1));
    }
}

/// Assigning a name keeps the order.
pub proof fn lemma_assigned_ordered(s: Seq<(Seq<char>, Ipv4Addr)>, name: Seq<char>, a: Ipv4Addr)
    requires
        names_ordered(s),
    ensures
        names_ordered(assigned(s, name, a)),
{
    lemma_name_rank(s, name);
    let r = name_rank(s, name);
    let t = assigned(s, name, a);
    if knows(s, name) {
        assert forall|i: int, j: int| 0 <= i < j < t.len() implies name_before(
            (#[trigger] t[i]).0,
            (#[trigger] t[j]).0,
        ) by {
            assert(t[i].0 == s[i].0 && t[j].0 == s[j].0);
        }
    } else {
        assert forall|k: int| r <= k < s.len() implies name_before(name, (#[trigger] s[k]).0) by {
            lemma_name_place(s, name);
            encode_utf8_decode_utf8(name);
            encode_utf8_decode_utf8(s[r].0);
            lemma_before_total(encode_utf8(name), encode_utf8(s[r].0));
            if k > r {
                assert(name_before(s[r].0, s[k].0));
                lemma_before_transitive(
                    encode_utf8(name),
                    encode_utf8(s[r].0),
                    encode_utf8(s[k].0),
                );
            }
        }
        assert forall|i: int, j: int| 0 <= i < j < t.len() implies name_before(
            (#[trigger] t[i]).0,
            (#[trigger] t[j]).0,
        ) by {
            if i == r {
                assert(t[j] == s[j - 1]);
            } else if j == r {
                assert(t[i] == s[i]);
            } else {
                let i2 = if i < r { i } else { i - 1 };
                let j2 = if j < r { j } else { j - 1 };
                assert(t[i] == s[i2] && t[j] == s[j2]);
            }
        }
    }
}

/// The entry at the place of a name does not come before it.
proof fn lemma_name_place(s: Seq<(Seq<char>, Ipv4Addr)>, name: Seq<char>)
    ensures
        name_rank(s, name) < s.len() ==> !name_before(s[name_rank(s, name)].0, name),
    decreases s.len(),
{
    if s.len() > 0 && name_before(s[0].0, name) {
        lemma_name_rank(s.skip(1), name);
        lemma_name_place(s.skip(1), name);
    }
}

/// An entry of a table in order is found under its name.
proof fn lemma_entry_known(s: Seq<(Seq<char>, Ipv4Addr)>, i: int)
    requires
        names_ordered(s),
        0 <= i < s.len(),
    ensures
        addr_of(s, s[i].0) == Some(s[i].1),
{
    lemma_not_before_itself(encode_utf8(s[i].0));
    lemma_name_rank_at(s, s[i].0, i);
}

/// Giving an address to a name leaves every other name as it was.
pub proof fn law_other_names_stay(
    s: Seq<(Seq<char>, Ipv4Addr)>,
    name: Seq<char>,
    a: Ipv4Addr,
    other: Seq<char>,
)
    requires
        names_ordered(s),
        other != name,
    ensures
        addr_of(assigned(s, name, a), other) == addr_of(s, other),
{
    let t = assigned(s, name, a);
    let r = name_rank(s, name);
    lemma_assigned_ordered(s, name, a);
    lemma_name_rank(s, name);
    lemma_name_rank(s, other);
    lemma_name_rank(t, other);
    if knows(s, other) {
        let i = name_rank(s, other);
        let j = if knows(s, name) || i < r { i } else { i + 1 };
        assert(t[j] == s[i]);
        lemma_entry_known(t, j);
    } else if knows(t, other) {
        let j = name_rank(t, other);
        let i = if knows(s, name) || j < r { j } else { j - 1 };
        assert(t[j] == s[i]);
        lemma_entry_known(s, i);
    }
}

} // verus!
