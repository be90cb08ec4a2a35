//! Tables and lists in the saved state of the machine.
use vstd::prelude::*;
use crate::snapshot::{add_field, after_table, append, fits, flat, law_table_comes_back, lemma_flat_take, read_table, rows_view, table_fits, table_rows, table_tokens, tokens, Fault, Field, Kind, Source, Token};
use crate::table::{lemma_rank_at, ordered, put, Table};

verus! {

/// An entry of a [`Table`] as a row of fields.
pub trait Row: View + Sized {
    /// The saved entry.
    spec fn row(k: u64, m: Self::V) -> Seq<Token>;

    /// The kinds of its fields.
    spec fn kinds() -> Seq<Kind>;

    /// Least number of bytes of a row.
    spec fn row_bytes() -> u64;

    /// The entry in a row.
    spec fn of(row: Seq<Token>) -> Result<(u64, Self::V), Fault>;

    /// The entry is one that a running machine has.
    spec fn good(k: u64, m: Self::V) -> bool;

    /// What was saved comes back.
    proof fn comes_back(k: u64, m: Self::V)
        requires
            Self::good(k, m),
        ensures
            Self::row(k, m).len() == Self::kinds().len(),
            fits(Self::row(k, m), Self::kinds()),
            Self::of(Self::row(k, m)) == Ok::<(u64, Self::V), Fault>((k, m)),
    ;

    fn fields(&self, k: u64) -> (r: Vec<Field>)
        ensures
            tokens(r@) == Self::row(k, self@),
    ;

    fn kind_list() -> (r: Vec<Kind>)
        ensures
            r@ == Self::kinds(),
    ;

    /// Least number of bytes of a row, by which a source can refuse a count that
    /// it has no room for.
    fn least() -> (r: u64)
        ensures
            r == Self::row_bytes(),
    ;

    fn from_row(row: &Vec<Field>) -> (r: Result<(u64, Self), Fault>)
        requires
            row@.len() == Self::kinds().len(),
            fits(tokens(row@), Self::kinds()),
        ensures
            match r {
                Ok((k, v)) => Self::of(tokens(row@)) == Ok::<(u64, Self::V), Fault>((k, v@)),
                Err(e) => Self::of(tokens(row@)) == Err::<(u64, Self::V), Fault>(e),
            },
    ;
}

/// The rows of a table.
pub open spec fn rows_of<R: Row>(s: Seq<(u64, R::V)>) -> Seq<Seq<Token>> {
    s.map_values(|e: (u64, R::V)| R::row(e.0, e.1))
}

/// The entries of the first `n` rows.
pub open spec fn gathered<R: Row>(rows: Seq<Seq<Token>>, n: nat) -> Result<Seq<(u64, R::V)>, Fault>
    decreases n,
{
    if n == 0 {
        Ok(Seq::empty())
    } else {
        match gathered::<R>(rows, (n - 1) as nat) {
            Err(e) => Err(e),
            Ok(s) => match R::of(rows[n - 1]) {
                Err(e) => Err(e),
                Ok((k, m)) => Ok(put(s, k, m)),
            },
        }
    }
}

/// The table at the front, and what is left after it.
pub open spec fn table_from<R: Row>(s: Seq<Token>) -> Result<
    (Seq<(u64, R::V)>, Seq<Token>),
    Fault,
> {
    if !table_fits(s, R::kinds()) {
        Err(Fault::Missing)
    } else {
        match gathered::<R>(table_rows(s, R::kinds()), table_rows(s, R::kinds()).len()) {
            Ok(t) => Ok((t, after_table(s, R::kinds()))),
            Err(e) => Err(e),
        }
    }
}

/// The fields of a table, in order.
pub fn save_table<R: Row>(t: &Table<R>) -> (r: Vec<Field>)
    ensures
        tokens(r@) == table_tokens(rows_of::<R>(t@)),
{
    let mut r: Vec<Field> = Vec::new();
    add_field(&mut r, Field::Count(t.entries.len() as u64));
    let ghost rows = rows_of::<R>(t@);
    let mut i: usize = 0;
    assert(tokens(r@) =~= seq![Token::Count(rows.len() as u64)] + flat(rows.take(0)));
    while i < t.entries.len()
        invariant
            i <= t.entries@.len() == rows.len(),
            rows == rows_of::<R>(t@),
            tokens(r@) == seq![Token::Count(rows.len() as u64)] + flat(rows.take(i as int)),
        decreases t.entries@.len() - i,
    {
        append(&mut r, t.entries[i].1.fields(t.entries[i].0));
        proof {
            lemma_flat_take(rows, i as int);
            assert(rows[i as int] == R::row(t.entries@[i as int].0, t.entries@[i as int].1@));
        }
        i += 1;
        assert(tokens(r@) =~= seq![Token::Count(rows.len() as u64)] + flat(rows.take(i as int)));
    }
    assert(rows.take(i as int) =~= rows);
    r
}

/// An error among the first rows is the error of all of them.
proof fn lemma_gathered_err<R: Row>(rows: Seq<Seq<Token>>, i: nat, n: nat)
    requires
        i <= n,
        gathered::<R>(rows, i) is Err,
    ensures
        gathered::<R>(rows, n) == gathered::<R>(rows, i),
    decreases n,
{
    if i < n {
        lemma_gathered_err::<R>(rows, i, (n - 1) as nat);
    }
}

/// Reads a table.
pub fn restore_table<R: Row, S: Source>(src: &mut S) -> (r: Result<Table<R>, Fault>)
    ensures
        match r {
            Ok(t) => table_from::<R>(old(src).rest()) == Ok::<(Seq<(u64, R::V)>, Seq<Token>), Fault>(
                (t@, final(src).rest()),
            ),
            Err(e) => table_from::<R>(old(src).rest()) == Err::<
                (Seq<(u64, R::V)>, Seq<Token>),
                Fault,
            >(e),
        },
{
    let kinds: Vec<Kind> = R::kind_list();
    let rows: Vec<Vec<Field>> = match read_table(src, kinds.as_slice(), R::least()) {
        Ok(v) => v,
        Err(e) => {
            return Err(e);
        },
    };
    let ghost all = rows_view(rows@);
    let mut t: Table<R> = Table::new();
    let mut i: usize = 0;
    while i < rows.len()
        invariant
            i <= rows@.len(),
            all == rows_view(rows@),
            table_fits(old(src).rest(), R::kinds()),
            all == table_rows(old(src).rest(), R::kinds()),
            forall|k: int|
                0 <= k < rows@.len() ==> fits(#[trigger] rows_view(rows@)[k], R::kinds())
                    && rows_view(rows@)[k].len() == R::kinds().len(),
            gathered::<R>(all, i as nat) == Ok::<Seq<(u64, R::V)>, Fault>(t@),
        decreases rows@.len() - i,
    {
        assert(tokens(rows@[i as int]@) == all[i as int]);
        match R::from_row(&rows[i]) {
            Ok((k, v)) => {
                t.insert(k, v);
                i += 1;
            },
            Err(e) => {
                proof {
                    lemma_gathered_err::<R>(all, (i + 1) as nat, all.len());
                }
                return Err(e);
            },
        }
    }
    Ok(t)
}

/// Entries put in order stand in order.
pub proof fn lemma_put_last<M>(s: Seq<(u64, M)>, n: int)
    requires
        ordered(s),
        0 <= n < s.len(),
    ensures
        put(s.take(n), s[n].0, s[n].1) == s.take(n + 1),
{
    let t = s.take(n);
    let k = s[n].0;
    assert forall|i: int| 0 <= i < n implies (#[trigger] t[i]).0 < k by {
        assert(t[i] == s[i]);
    }
    lemma_rank_at(t, k, n);
    assert(put(t, k, s[n].1) =~= s.take(n + 1));
}

/// A table that was saved is restored as it was.
pub proof fn law_saved_table_comes_back<R: Row>(t: Seq<(u64, R::V)>, rest: Seq<Token>)
    requires
        ordered(t),
        t.len() <= u64::MAX,
        forall|i: int| 0 <= i < t.len() ==> R::good((#[trigger] t[i]).0, t[i].1),
    ensures
        table_from::<R>(table_tokens(rows_of::<R>(t)) + rest) == Ok::<
            (Seq<(u64, R::V)>, Seq<Token>),
            Fault,
        >((t, rest)),
{
    let rows = rows_of::<R>(t);
    assert forall|i: int| 0 <= i < rows.len() implies (#[trigger] rows[i]).len() == R::kinds().len()
        && fits(rows[i], R::kinds()) by {
        assert(R::good(t[i].0, t[i].1));
        R::comes_back(t[i].0, t[i].1);
    }
    law_table_comes_back(rows, R::kinds(), rest);
    lemma_gathered_all::<R>(t, t.len());
    assert(t.take(t.len() as int) =~= t);
}

proof fn lemma_gathered_all<R: Row>(t: Seq<(u64, R::V)>, n: nat)
    requires
        ordered(t),
        n <= t.len(),
        forall|i: int| 0 <= i < t.len() ==> R::good((#[trigger] t[i]).0, t[i].1),
    ensures
        gathered::<R>(rows_of::<R>(t), n) == Ok::<Seq<(u64, R::V)>, Fault>(t.take(n as int)),
    decreases n,
{
    if n == 0 {
        assert(t.take(0) =~= Seq::empty());
    } else {
        lemma_gathered_all::<R>(t, (n - 1) as nat);
        let e = t[n - 1];
        assert(R::good(e.0, e.1));
        R::comes_back(e.0, e.1);
        lemma_put_last(t, n - 1);
    }
}

/// An item of a list as a row of fields.
pub trait Item: View + Sized {
    spec fn line(m: Self::V) -> Seq<Token>;

    spec fn line_kinds() -> Seq<Kind>;

    /// Least number of bytes of an item.
    spec fn line_bytes() -> u64;

    spec fn item_of(row: Seq<Token>) -> Result<Self::V, Fault>;

    /// What was saved comes back.
    proof fn line_comes_back(m: Self::V)
        ensures
            Self::line(m).len() == Self::line_kinds().len(),
            fits(Self::line(m), Self::line_kinds()),
            Self::item_of(Self::line(m)) == Ok::<Self::V, Fault>(m),
    ;

    fn line_fields(&self) -> (r: Vec<Field>)
        ensures
            tokens(r@) == Self::line(self@),
    ;

    fn line_kind_list() -> (r: Vec<Kind>)
        ensures
            r@ == Self::line_kinds(),
    ;

    /// Least number of bytes of an item, by which a source can refuse a count
    /// that it has no room for.
    fn least_line() -> (r: u64)
        ensures
            r == Self::line_bytes(),
    ;

    fn from_line(row: &Vec<Field>) -> (r: Result<Self, Fault>)
        requires
            row@.len() == Self::line_kinds().len(),
            fits(tokens(row@), Self::line_kinds()),
        ensures
            match r {
                Ok(v) => Self::item_of(tokens(row@)) == Ok::<Self::V, Fault>(v@),
                Err(e) => Self::item_of(tokens(row@)) == Err::<Self::V, Fault>(e),
            },
    ;
}

pub open spec fn items<R: Item>(s: Seq<R>) -> Seq<R::V> {
    s.map_values(|e: R| e@)
}

/// The rows of a list.
pub open spec fn lines_of<R: Item>(s: Seq<R::V>) -> Seq<Seq<Token>> {
    s.map_values(|e: R::V| R::line(e))
}

/// The items of the first `n` rows.
pub open spec fn listed<R: Item>(rows: Seq<Seq<Token>>, n: nat) -> Result<Seq<R::V>, Fault>
    decreases n,
{
    if n == 0 {
        Ok(Seq::empty())
    } else {
        match listed::<R>(rows, (n - 1) as nat) {
            Err(e) => Err(e),
            Ok(s) => match R::item_of(rows[n - 1]) {
                Err(e) => Err(e),
                Ok(m) => Ok(s.push(m)),
            },
        }
    }
}

/// A list has one item for each row.
pub proof fn lemma_listed_len<R: Item>(rows: Seq<Seq<Token>>, n: nat)
    ensures
        listed::<R>(rows, n) matches Ok(s) ==> s.len() == n,
    decreases n,
{
    if n > 0 {
        lemma_listed_len::<R>(rows, (n - 1) as nat);
    }
}

/// The list at the front, and what is left after it.
pub open spec fn list_from<R: Item>(s: Seq<Token>) -> Result<(Seq<R::V>, Seq<Token>), Fault> {
    if !table_fits(s, R::line_kinds()) {
        Err(Fault::Missing)
    } else {
        match listed::<R>(table_rows(s, R::line_kinds()), table_rows(s, R::line_kinds()).len()) {
            Ok(t) => Ok((t, after_table(s, R::line_kinds()))),
            Err(e) => Err(e),
        }
    }
}

/// The fields of a list, in order.
pub fn save_list<R: Item>(t: &Vec<R>) -> (r: Vec<Field>)
    ensures
        tokens(r@) == table_tokens(lines_of::<R>(items(t@))),
{
    let mut r: Vec<Field> = Vec::new();
    add_field(&mut r, Field::Count(t.len() as u64));
    let ghost rows = lines_of::<R>(items(t@));
    let mut i: usize = 0;
    assert(tokens(r@) =~= seq![Token::Count(rows.len() as u64)] + flat(rows.take(0)));
    while i < t.len()
        invariant
            i <= t@.len() == rows.len(),
            rows == lines_of::<R>(items(t@)),
            tokens(r@) == seq![Token::Count(rows.len() as u64)] + flat(rows.take(i as int)),
        decreases t@.len() - i,
    {
        append(&mut r, t[i].line_fields());
        proof {
            lemma_flat_take(rows, i as int);
            assert(rows[i as int] == R::line(t@[i as int]@));
        }
        i += 1;
        assert(tokens(r@) =~= seq![Token::Count(rows.len() as u64)] + flat(rows.take(i as int)));
    }
    assert(rows.take(i as int) =~= rows);
    r
}

proof fn lemma_listed_err<R: Item>(rows: Seq<Seq<Token>>, i: nat, n: nat)
    requires
        i <= n,
        listed::<R>(rows, i) is Err,
    ensures
        listed::<R>(rows, n) == listed::<R>(rows, i),
    decreases n,
{
    if i < n {
        lemma_listed_err::<R>(rows, i, (n - 1) as nat);
    }
}

/// The items of some rows.
pub fn read_items<R: Item>(rows: &Vec<Vec<Field>>) -> (r: Result<Vec<R>, Fault>)
    requires
        forall|k: int|
            0 <= k < rows@.len() ==> fits(#[trigger] rows_view(rows@)[k], R::line_kinds())
                && rows_view(rows@)[k].len() == R::line_kinds().len(),
    ensures
        match r {
            Ok(t) => listed::<R>(rows_view(rows@), rows@.len()) == Ok::<Seq<R::V>, Fault>(items(t@)),
            Err(e) => listed::<R>(rows_view(rows@), rows@.len()) == Err::<Seq<R::V>, Fault>(e),
        },
{
    let ghost all = rows_view(rows@);
    let mut t: Vec<R> = Vec::new();
    let mut i: usize = 0;
    assert(items(t@) =~= Seq::<R::V>::empty());
    while i < rows.len()
        invariant
            i <= rows@.len(),
            all == rows_view(rows@),
            forall|k: int|
                0 <= k < rows@.len() ==> fits(#[trigger] rows_view(rows@)[k], R::line_kinds())
                    && rows_view(rows@)[k].len() == R::line_kinds().len(),
            listed::<R>(all, i as nat) == Ok::<Seq<R::V>, Fault>(items(t@)),
        decreases rows@.len() - i,
    {
        assert(tokens(rows@[i as int]@) == all[i as int]);
        match R::from_line(&rows[i]) {
            Ok(v) => {
                let ghost before = items(t@);
                t.push(v);
                i += 1;
                assert(items(t@) =~= before.push(v@));
            },
            Err(e) => {
                proof {
                    lemma_listed_err::<R>(all, (i + 1) as nat, all.len());
                }
                return Err(e);
            },
        }
    }
    Ok(t)
}

/// Reads a list.
pub fn restore_list<R: Item, S: Source>(src: &mut S) -> (r: Result<Vec<R>, Fault>)
    ensures
        match r {
            Ok(t) => list_from::<R>(old(src).rest()) == Ok::<(Seq<R::V>, Seq<Token>), Fault>(
                (items(t@), final(src).rest()),
            ),
            Err(e) => list_from::<R>(old(src).rest()) == Err::<(Seq<R::V>, Seq<Token>), Fault>(e),
        },
{
    let kinds: Vec<Kind> = R::line_kind_list();
    match read_table(src, kinds.as_slice(), R::least_line()) {
        Ok(rows) => read_items::<R>(&rows),
        Err(e) => Err(e),
    }
}

/// A list that was saved is restored as it was.
pub proof fn law_saved_list_comes_back<R: Item>(t: Seq<R::V>, rest: Seq<Token>)
    requires
        t.len() <= u64::MAX,
    ensures
        list_from::<R>(table_tokens(lines_of::<R>(t)) + rest) == Ok::<
            (Seq<R::V>, Seq<Token>),
            Fault,
        >((t, rest)),
{
    let rows = lines_of::<R>(t);
    assert forall|i: int| 0 <= i < rows.len() implies (#[trigger] rows[i]).len()
        == R::line_kinds().len() && fits(rows[i], R::line_kinds()) by {
        R::line_comes_back(t[i]);
    }
    law_table_comes_back(rows, R::line_kinds(), rest);
    lemma_listed_all::<R>(t, t.len());
    assert(t.take(t.len() as int) =~= t);
}

pub proof fn lemma_listed_all<R: Item>(t: Seq<R::V>, n: nat)
    requires
        n <= t.len(),
    ensures
        listed::<R>(lines_of::<R>(t), n) == Ok::<Seq<R::V>, Fault>(t.take(n as int)),
    decreases n,
{
    if n == 0 {
        assert(t.take(0) =~= Seq::empty());
    } else {
        lemma_listed_all::<R>(t, (n - 1) as nat);
        R::line_comes_back(t[n - 1]);
        assert(t.take(n - 1).push(t[n - 1]) =~= t.take(n as int));
    }
}

} // verus!
