//! The input device in the saved state of the machine.
//!
//! The configuration (the bits and axes announced) is not saved: a fingerprint of
//! it is, to see that the device restored is the same. Whoever stores the fields
//! takes it of [`VirtioInput::config_fields`].
use std::collections::VecDeque;
use vstd::prelude::*;
use crate::bytes::{le16, le32};
use crate::platform::virtio::input::{law_event_round_trip, CfgEntry, Entry, Input, InputConfig, InputEvent, VirtioInput};
use crate::rows::{items, law_saved_list_comes_back, lines_of, list_from, restore_list, save_list, Item};
use crate::snapshot::{append, copy_bytes, fits, law_row_comes_back, lemma_join, read_row, table_tokens, tokens, Fault, Field, Kind, Source, Subject, Token};

verus! {

impl View for InputEvent {
    type V = InputEvent;

    open spec fn view(&self) -> InputEvent {
        *self
    }
}

impl Item for InputEvent {
    open spec fn line(m: InputEvent) -> Seq<Token> {
        seq![
            Token::Raw(m.bytes()),
        ]
    }

    open spec fn line_kinds() -> Seq<Kind> {
        seq![
            Kind::Raw(8),
        ]
    }

    open spec fn item_of(row: Seq<Token>) -> Result<InputEvent, Fault> {
        Ok(InputEvent::of(row[0]->Raw_0))
    }

    proof fn line_comes_back(m: InputEvent) {
        let row = Self::line(m);
        assert(row[0] == Token::Raw(m.bytes()));
        law_event_round_trip(m);
        assert(Self::item_of(row)->Ok_0 =~= m);
    }

    fn line_fields(&self) -> (r: Vec<Field>) {
        let mut r: Vec<Field> = Vec::new();
        r.push(Field::Raw(self.to_bytes()));
        assert(tokens(r@) =~= Self::line(self@));
        r
    }

    fn line_kind_list() -> (r: Vec<Kind>) {
        let mut r: Vec<Kind> = Vec::new();
        r.push(Kind::Raw(8));
        assert(r@ =~= Self::line_kinds());
        r
    }

    open spec fn line_bytes() -> u64 {
        8
    }

    fn least_line() -> (r: u64) {
        8
    }

    fn from_line(row: &Vec<Field>) -> (r: Result<Self, Fault>) {
        let ghost t = tokens(row@);
        assert(forall|i: int| 0 <= i < row@.len() ==> (#[trigger] row@[i])@ == t[i]);
        assert(t[0].is_kind(Self::line_kinds()[0]));
        let b: Vec<u8> = row[0].raw();
        Ok(
            InputEvent {
                ty: le16(b.as_slice(), 0),
                code: le16(b.as_slice(), 2),
                value: le32(b.as_slice(), 4),
            },
        )
    }
}

impl Item for CfgEntry {
    open spec fn line(m: Entry) -> Seq<Token> {
        seq![
            Token::U8(m.select),
            Token::U8(m.subsel),
            Token::Bytes(m.data),
        ]
    }

    open spec fn line_kinds() -> Seq<Kind> {
        seq![
            Kind::U8,
            Kind::U8,
            Kind::Bytes,
        ]
    }

    open spec fn item_of(row: Seq<Token>) -> Result<Entry, Fault> {
        Ok(Entry { select: row[0]->U8_0, subsel: row[1]->U8_0, data: row[2]->Bytes_0 })
    }

    proof fn line_comes_back(m: Entry) {
        let row = Self::line(m);
        assert(row[0] == Token::U8(m.select));
        assert(row[1] == Token::U8(m.subsel));
        assert(row[2] == Token::Bytes(m.data));
        assert(Self::item_of(row)->Ok_0 =~= m);
    }

    fn line_fields(&self) -> (r: Vec<Field>) {
        let mut r: Vec<Field> = Vec::new();
        r.push(Field::U8(self.select));
        r.push(Field::U8(self.subsel));
        r.push(Field::Bytes(copy_bytes(&self.data)));
        assert(tokens(r@) =~= Self::line(self@));
        r
    }

    fn line_kind_list() -> (r: Vec<Kind>) {
        let mut r: Vec<Kind> = Vec::new();
        r.push(Kind::U8);
        r.push(Kind::U8);
        r.push(Kind::Bytes);
        assert(r@ =~= Self::line_kinds());
        r
    }

    open spec fn line_bytes() -> u64 {
        10
    }

    fn least_line() -> (r: u64) {
        10
    }

    fn from_line(row: &Vec<Field>) -> (r: Result<Self, Fault>) {
        let ghost t = tokens(row@);
        assert(forall|i: int| 0 <= i < row@.len() ==> (#[trigger] row@[i])@ == t[i]);
        assert(t[0].is_kind(Self::line_kinds()[0]));
        assert(t[1].is_kind(Self::line_kinds()[1]));
        assert(t[2].is_kind(Self::line_kinds()[2]));
        Ok(CfgEntry { select: row[0].u8(), subsel: row[1].u8(), data: row[2].bytes() })
    }
}

pub open spec fn input_kinds() -> Seq<Kind> {
    seq![
        Kind::U64,
        Kind::U8,
        Kind::U8,
        Kind::Bool,
    ]
}

fn input_kinds_list() -> (r: Vec<Kind>)
    ensures
        r@ == input_kinds(),
{
    let mut r: Vec<Kind> = Vec::new();
    r.push(Kind::U64);
    r.push(Kind::U8);
    r.push(Kind::U8);
    r.push(Kind::Bool);
    assert(r@ =~= input_kinds());
    r
}

pub open spec fn counter_kinds() -> Seq<Kind> {
    seq![
        Kind::Bool,
        Kind::U64,
        Kind::U32,
    ]
}

fn counter_kinds_list() -> (r: Vec<Kind>)
    ensures
        r@ == counter_kinds(),
{
    let mut r: Vec<Kind> = Vec::new();
    r.push(Kind::Bool);
    r.push(Kind::U64);
    r.push(Kind::U32);
    assert(r@ =~= counter_kinds());
    r
}

/// The events of a queue.
fn list_events(q: &VecDeque<InputEvent>) -> (r: Vec<InputEvent>)
    ensures
        r@ == q@,
{
    let mut r: Vec<InputEvent> = Vec::new();
    let mut i: usize = 0;
    while i < q.len()
        invariant
            i <= q@.len(),
            r@ == q@.take(i as int),
        decreases q@.len() - i,
    {
        r.push(q[i]);
        i += 1;
        assert(r@ =~= q@.take(i as int));
    }
    assert(r@ =~= q@);
    r
}

fn queue_events(v: &Vec<InputEvent>) -> (r: VecDeque<InputEvent>)
    ensures
        r@ == v@,
{
    let mut r: VecDeque<InputEvent> = VecDeque::new();
    let mut i: usize = 0;
    while i < v.len()
        invariant
            i <= v@.len(),
            r@ == v@.take(i as int),
        decreases v@.len() - i,
    {
        r.push_back(v[i]);
        i += 1;
        assert(r@ =~= v@.take(i as int));
    }
    assert(r@ =~= v@);
    r
}

/// The saved device; `digest` is the fingerprint of its configuration.
pub open spec fn input_tokens(s: Input, digest: u64) -> Seq<Token> {
    window_tokens(s, digest) + (table_tokens(lines_of::<InputEvent>(s.pending)) + (counter_tokens(s)
        + table_tokens(lines_of::<InputEvent>(s.status))))
}

pub open spec fn window_tokens(s: Input, digest: u64) -> Seq<Token> {
    seq![Token::U64(digest), Token::U8(s.select), Token::U8(s.subsel), Token::Bool(s.active)]
}

pub open spec fn counter_tokens(s: Input) -> Seq<Token> {
    seq![Token::Bool(s.discarding), Token::U64(s.dropped), Token::U32(s.leds)]
}

/// The device restored.
pub open spec fn input_from(s: Input, digest: u64, t: Seq<Token>) -> Result<(Input, Seq<Token>), Fault> {
    if !fits(t, input_kinds()) {
        Err(Fault::Missing)
    } else if t[0]->U64_0 != digest {
        Err(Fault::Differs(Subject::InputConfig))
    } else {
        match list_from::<InputEvent>(t.skip(4)) {
            Err(e) => Err(e),
            Ok((pending, t2)) => if !fits(t2, counter_kinds()) {
                Err(Fault::Missing)
            } else {
                match list_from::<InputEvent>(t2.skip(3)) {
                    Err(e) => Err(e),
                    Ok((status, rest)) => Ok(
                        (
                            Input {
                                entries: s.entries,
                                select: t[1]->U8_0,
                                subsel: t[2]->U8_0,
                                active: t[3]->Bool_0,
                                pending,
                                discarding: t2[0]->Bool_0,
                                dropped: t2[1]->U64_0,
                                leds: t2[2]->U32_0,
                                status,
                            },
                            rest,
                        ),
                    ),
                }
            },
        }
    }
}

impl VirtioInput {
    /// The fields of the configuration.
    pub fn config_fields(&self) -> (r: Vec<Field>)
        ensures
            tokens(r@) == table_tokens(lines_of::<CfgEntry>(self@.entries)),
    {
        let r: Vec<Field> = save_list(&self.config.entries);
        assert(items(self.config.entries@) =~= self@.entries);
        r
    }

    pub fn save_state(&self, digest: u64) -> (r: Vec<Field>)
        ensures
            tokens(r@) == input_tokens(self@, digest),
    {
        let mut r: Vec<Field> = Vec::new();
        r.push(Field::U64(digest));
        r.push(Field::U8(self.select));
        r.push(Field::U8(self.subsel));
        r.push(Field::Bool(self.active));
        assert(tokens(r@) =~= window_tokens(self@, digest));
        let pending: Vec<InputEvent> = list_events(&self.pending);
        append(&mut r, save_list(&pending));
        assert(items(pending@) =~= self@.pending);
        let mut c: Vec<Field> = Vec::new();
        c.push(Field::Bool(self.discarding));
        c.push(Field::U64(self.dropped));
        c.push(Field::U32(self.leds));
        assert(tokens(c@) =~= counter_tokens(self@));
        append(&mut r, c);
        append(&mut r, save_list(&self.status));
        assert(items(self.status@) =~= self@.status);
        assert(tokens(r@) =~= input_tokens(self@, digest));
        r
    }

    pub fn restore_state<S: Source>(&mut self, src: &mut S, digest: u64) -> (r: Result<(), Fault>)
        ensures
            match r {
                Ok(_) => {
                    &&& input_from(old(self)@, digest, old(src).rest()) == Ok::<
                        (Input, Seq<Token>),
                        Fault,
                    >((final(self)@, final(src).rest()))
                    &&& final(self).config == old(self).config
                },
                Err(e) => {
                    &&& input_from(old(self)@, digest, old(src).rest()) == Err::<
                        (Input, Seq<Token>),
                        Fault,
                    >(e)
                    &&& *final(self) == *old(self)
                },
            },
    {
        let ghost t = src.rest();
        let kinds: Vec<Kind> = input_kinds_list();
        let row: Vec<Field> = match read_row(src, kinds.as_slice()) {
            Ok(row) => row,
            Err(e) => {
                return Err(e);
            },
        };
        assert(t[0].is_kind(input_kinds()[0]));
        assert(t[1].is_kind(input_kinds()[1]));
        assert(t[2].is_kind(input_kinds()[2]));
        assert(t[3].is_kind(input_kinds()[3]));
        if row[0].u64() != digest {
            return Err(Fault::Differs(Subject::InputConfig));
        }
        let pending: Vec<InputEvent> = match restore_list(src) {
            Ok(v) => v,
            Err(e) => {
                return Err(e);
            },
        };
        assert(items(pending@) =~= pending@);
        let ghost t2 = src.rest();
        let kinds: Vec<Kind> = counter_kinds_list();
        let count: Vec<Field> = match read_row(src, kinds.as_slice()) {
            Ok(row) => row,
            Err(e) => {
                return Err(e);
            },
        };
        assert(t2[0].is_kind(counter_kinds()[0]));
        assert(t2[1].is_kind(counter_kinds()[1]));
        assert(t2[2].is_kind(counter_kinds()[2]));
        let status: Vec<InputEvent> = match restore_list(src) {
            Ok(v) => v,
            Err(e) => {
                return Err(e);
            },
        };
        assert(items(status@) =~= status@);
        self.select = row[1].u8();
        self.subsel = row[2].u8();
        self.active = row[3].bool();
        self.pending = queue_events(&pending);
        self.discarding = count[0].bool();
        self.dropped = count[1].u64();
        self.leds = count[2].u32();
        self.status = status;
        assert(self@ =~= (input_from(old(self)@, digest, t)->Ok_0).0);
        Ok(())
    }
}

/// An input device that was saved is restored as it was, on a device with the
/// same configuration.
pub proof fn law_input_device_comes_back(s: Input, n: Input, digest: u64, rest: Seq<Token>)
    requires
        n.entries == s.entries,
        s.pending.len() <= u64::MAX,
        s.status.len() <= u64::MAX,
    ensures
        input_from(n, digest, input_tokens(s, digest) + rest) == Ok::<(Input, Seq<Token>), Fault>(
            (s, rest),
        ),
{
    let a = window_tokens(s, digest);
    let b = table_tokens(lines_of::<InputEvent>(s.pending));
    let c = counter_tokens(s);
    let d = table_tokens(lines_of::<InputEvent>(s.status));
    lemma_join(a, b + (c + d), rest);
    lemma_join(b, c + d, rest);
    lemma_join(c, d, rest);
    assert(a[0] == Token::U64(digest));
    assert(a[1] == Token::U8(s.select));
    assert(a[2] == Token::U8(s.subsel));
    assert(a[3] == Token::Bool(s.active));
    law_row_comes_back(a, input_kinds(), b + (c + (d + rest)));
    law_saved_list_comes_back::<InputEvent>(s.pending, c + (d + rest));
    assert(c[0] == Token::Bool(s.discarding));
    assert(c[1] == Token::U64(s.dropped));
    assert(c[2] == Token::U32(s.leds));
    law_row_comes_back(c, counter_kinds(), d + rest);
    law_saved_list_comes_back::<InputEvent>(s.status, rest);
}

} // verus!
