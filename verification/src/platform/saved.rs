//! The timer and the interrupt controller in the saved state of the machine.
use vstd::prelude::*;
use crate::platform::gic::{Gic, GicState, Irq, NUM_INTIDS};
use crate::platform::timer::{GenericTimer, TimerChannel, CTL_ENABLE, CTL_IMASK};
use crate::rows::{items, law_saved_list_comes_back, lemma_listed_all, lemma_listed_len, lines_of, list_from, listed, read_items, restore_list, save_list, Item};
use crate::snapshot::{append, cut, fits, flat, law_row_comes_back, lemma_flat_take, lemma_join, lemma_rows_come_back, past, read_row, read_rows, rows_fit, table_tokens, tokens, Fault, Field, Kind, Source, Subject, Token};

verus! {

// ---- Timer ----------------------------------------------------------------------

pub open spec fn timer_kinds() -> Seq<Kind> {
    seq![
        Kind::U32,
        Kind::U64,
        Kind::U64,
        Kind::U64,
        Kind::U64,
        Kind::U64,
    ]
}

fn timer_kinds_list() -> (r: Vec<Kind>)
    ensures
        r@ == timer_kinds(),
{
    let mut r: Vec<Kind> = Vec::new();
    r.push(Kind::U32);
    r.push(Kind::U64);
    r.push(Kind::U64);
    r.push(Kind::U64);
    r.push(Kind::U64);
    r.push(Kind::U64);
    assert(r@ =~= timer_kinds());
    r
}

impl GenericTimer {
    /// The saved timer.
    pub open spec fn saved(self) -> Seq<Token> {
        seq![
            Token::U32(self.cntfrq),
            Token::U64(self.cntvoff),
            Token::U64(self.phys.ctl),
            Token::U64(self.phys.cval),
            Token::U64(self.virt.ctl),
            Token::U64(self.virt.cval),
        ]
    }

    /// The timer at the front, and what is left after it. Of the control
    /// registers only the bits that can be written come back.
    pub open spec fn revived(s: Seq<Token>) -> Result<(GenericTimer, Seq<Token>), Fault> {
        if !fits(s, timer_kinds()) {
            Err(Fault::Missing)
        } else {
            Ok(
                (
                    GenericTimer {
                        cntfrq: s[0]->U32_0,
                        cntvoff: s[1]->U64_0,
                        phys: TimerChannel {
                            ctl: s[2]->U64_0 & (CTL_ENABLE | CTL_IMASK),
                            cval: s[3]->U64_0,
                        },
                        virt: TimerChannel {
                            ctl: s[4]->U64_0 & (CTL_ENABLE | CTL_IMASK),
                            cval: s[5]->U64_0,
                        },
                    },
                    s.skip(6),
                ),
            )
        }
    }

    pub fn save(&self) -> (r: Vec<Field>)
        ensures
            tokens(r@) == self.saved(),
    {
        let mut r: Vec<Field> = Vec::new();
        r.push(Field::U32(self.cntfrq));
        r.push(Field::U64(self.cntvoff));
        r.push(Field::U64(self.phys.ctl));
        r.push(Field::U64(self.phys.cval));
        r.push(Field::U64(self.virt.ctl));
        r.push(Field::U64(self.virt.cval));
        assert(tokens(r@) =~= self.saved());
        r
    }

    pub fn restore<S: Source>(&mut self, src: &mut S) -> (r: Result<(), Fault>)
        ensures
            match r {
                Ok(_) => Self::revived(old(src).rest()) == Ok::<(GenericTimer, Seq<Token>), Fault>(
                    (*final(self), final(src).rest()),
                ),
                Err(e) => {
                    &&& Self::revived(old(src).rest()) == Err::<(GenericTimer, Seq<Token>), Fault>(e)
                    &&& *final(self) == *old(self)
                },
            },
    {
        let ghost s = src.rest();
        let kinds: Vec<Kind> = timer_kinds_list();
        let row: Vec<Field> = match read_row(src, kinds.as_slice()) {
            Ok(row) => row,
            Err(e) => {
                return Err(e);
            },
        };
        assert(s[0].is_kind(timer_kinds()[0]));
        assert(s[1].is_kind(timer_kinds()[1]));
        assert(s[2].is_kind(timer_kinds()[2]));
        assert(s[3].is_kind(timer_kinds()[3]));
        assert(s[4].is_kind(timer_kinds()[4]));
        assert(s[5].is_kind(timer_kinds()[5]));
        self.cntfrq = row[0].u32();
        self.cntvoff = row[1].u64();
        self.phys.write_ctl(row[2].u64());
        self.phys.cval = row[3].u64();
        self.virt.write_ctl(row[4].u64());
        self.virt.cval = row[5].u64();
        Ok(())
    }
}

/// A timer that was saved is restored as it was.
pub proof fn law_timer_comes_back(t: GenericTimer, rest: Seq<Token>)
    requires
        t.phys.ctl & (CTL_ENABLE | CTL_IMASK) == t.phys.ctl,
        t.virt.ctl & (CTL_ENABLE | CTL_IMASK) == t.virt.ctl,
    ensures
        GenericTimer::revived(t.saved() + rest) == Ok::<(GenericTimer, Seq<Token>), Fault>(
            (t, rest),
        ),
{
    let row = t.saved();
    assert(row[0] == Token::U32(t.cntfrq));
    assert(row[1] == Token::U64(t.cntvoff));
    assert(row[2] == Token::U64(t.phys.ctl));
    assert(row[3] == Token::U64(t.phys.cval));
    assert(row[4] == Token::U64(t.virt.ctl));
    assert(row[5] == Token::U64(t.virt.cval));
    law_row_comes_back(row, timer_kinds(), rest);
}

// ---- Interrupt controller -------------------------------------------------------

/// The flags of an interrupt in one byte.
pub open spec fn irq_flags(i: Irq) -> u8 {
    (bit_at(i.enabled, 1) + bit_at(i.pending, 2) + bit_at(i.level, 4) + bit_at(i.active, 8) + bit_at(
        i.group1,
        16,
    ) + bit_at(i.edge, 32)) as u8
}

/// The value of a bit.
pub open spec fn bit_at(b: bool, v: int) -> int {
    if b {
        v
    } else {
        0
    }
}

/// Whether the bit of value `v` is set.
pub open spec fn has_bit(f: u8, v: u8) -> bool {
    (f / v) % 2 == 1
}

/// The interrupt with these flags.
pub open spec fn irq_of(f: u8, priority: u8, router: u64) -> Irq {
    Irq {
        enabled: has_bit(f, 1),
        pending: has_bit(f, 2),
        level: has_bit(f, 4),
        active: has_bit(f, 8),
        group1: has_bit(f, 16),
        edge: has_bit(f, 32),
        priority,
        router,
    }
}

fn flags_of(i: &Irq) -> (r: u8)
    ensures
        r == irq_flags(*i),
{
    let a: u8 = if i.enabled { 1 } else { 0 };
    let b: u8 = if i.pending { 2 } else { 0 };
    let c: u8 = if i.level { 4 } else { 0 };
    let d: u8 = if i.active { 8 } else { 0 };
    let e: u8 = if i.group1 { 16 } else { 0 };
    let f: u8 = if i.edge { 32 } else { 0 };
    a + b + c + d + e + f
}

impl View for Irq {
    type V = Irq;

    open spec fn view(&self) -> Irq {
        *self
    }
}

impl Item for Irq {
    open spec fn line(m: Irq) -> Seq<Token> {
        seq![
            Token::U8(irq_flags(m)),
            Token::U8(m.priority),
            Token::U64(m.router),
        ]
    }

    open spec fn line_kinds() -> Seq<Kind> {
        seq![
            Kind::U8,
            Kind::U8,
            Kind::U64,
        ]
    }

    open spec fn item_of(row: Seq<Token>) -> Result<Irq, Fault> {
        if row[0]->U8_0 >= 64 {
            Err(Fault::Interrupt(row[0]->U8_0))
        } else {
            Ok(irq_of(row[0]->U8_0, row[1]->U8_0, row[2]->U64_0))
        }
    }

    proof fn line_comes_back(m: Irq) {
        let row = Self::line(m);
        assert(row[0] == Token::U8(irq_flags(m)));
        assert(row[1] == Token::U8(m.priority));
        assert(row[2] == Token::U64(m.router));
        assert(Self::item_of(row)->Ok_0 =~= m);
    }

    fn line_fields(&self) -> (r: Vec<Field>) {
        let mut r: Vec<Field> = Vec::new();
        r.push(Field::U8(flags_of(self)));
        r.push(Field::U8(self.priority));
        r.push(Field::U64(self.router));
        assert(tokens(r@) =~= Self::line(self@));
        r
    }

    fn line_kind_list() -> (r: Vec<Kind>) {
        let mut r: Vec<Kind> = Vec::new();
        r.push(Kind::U8);
        r.push(Kind::U8);
        r.push(Kind::U64);
        assert(r@ =~= Self::line_kinds());
        r
    }

    open spec fn line_bytes() -> u64 {
        10
    }

    fn least_line() -> (r: u64) {
        10
    }

    fn from_line(row: &Vec<Field>) -> (r: Result<Self, Fault>) {
        let ghost t = tokens(row@);
        assert(forall|i: int| 0 <= i < row@.len() ==> (#[trigger] row@[i])@ == t[i]);
        assert(t[0].is_kind(Self::line_kinds()[0]));
        assert(t[1].is_kind(Self::line_kinds()[1]));
        assert(t[2].is_kind(Self::line_kinds()[2]));
        let f: u8 = row[0].u8();
        if f >= 64 {
            return Err(Fault::Interrupt(f));
        }
        Ok(
            Irq {
                enabled: f % 2 == 1,
                pending: (f / 2) % 2 == 1,
                level: (f / 4) % 2 == 1,
                active: (f / 8) % 2 == 1,
                group1: (f / 16) % 2 == 1,
                edge: (f / 32) % 2 == 1,
                priority: row[1].u8(),
                router: row[2].u64(),
            },
        )
    }
}

impl Item for (u32, u8) {
    open spec fn line(m: (u32, u8)) -> Seq<Token> {
        seq![
            Token::U32(m.0),
            Token::U8(m.1),
        ]
    }

    open spec fn line_kinds() -> Seq<Kind> {
        seq![
            Kind::U32,
            Kind::U8,
        ]
    }

    open spec fn item_of(row: Seq<Token>) -> Result<(u32, u8), Fault> {
        Ok((row[0]->U32_0, row[1]->U8_0))
    }

    proof fn line_comes_back(m: (u32, u8)) {
        let row = Self::line(m);
        assert(row[0] == Token::U32(m.0));
        assert(row[1] == Token::U8(m.1));
        assert(Self::item_of(row)->Ok_0 =~= m);
    }

    fn line_fields(&self) -> (r: Vec<Field>) {
        let mut r: Vec<Field> = Vec::new();
        r.push(Field::U32(self.0));
        r.push(Field::U8(self.1));
        assert(tokens(r@) =~= Self::line(self@));
        r
    }

    fn line_kind_list() -> (r: Vec<Kind>) {
        let mut r: Vec<Kind> = Vec::new();
        r.push(Kind::U32);
        r.push(Kind::U8);
        assert(r@ =~= Self::line_kinds());
        r
    }

    open spec fn line_bytes() -> u64 {
        5
    }

    fn least_line() -> (r: u64) {
        5
    }

    fn from_line(row: &Vec<Field>) -> (r: Result<Self, Fault>) {
        let ghost t = tokens(row@);
        assert(forall|i: int| 0 <= i < row@.len() ==> (#[trigger] row@[i])@ == t[i]);
        assert(t[0].is_kind(Self::line_kinds()[0]));
        assert(t[1].is_kind(Self::line_kinds()[1]));
        Ok((row[0].u32(), row[1].u8()))
    }
}

pub open spec fn gic_kinds() -> Seq<Kind> {
    seq![
        Kind::U32,
        Kind::Bool,
        Kind::U8,
        Kind::U8,
        Kind::Bool,
        Kind::Bool,
    ]
}

fn gic_kinds_list() -> (r: Vec<Kind>)
    ensures
        r@ == gic_kinds(),
{
    let mut r: Vec<Kind> = Vec::new();
    r.push(Kind::U32);
    r.push(Kind::Bool);
    r.push(Kind::U8);
    r.push(Kind::U8);
    r.push(Kind::Bool);
    r.push(Kind::Bool);
    assert(r@ =~= gic_kinds());
    r
}

/// The saved controller: its interrupts, its registers, its active priorities.
pub open spec fn gic_tokens(g: GicState) -> Seq<Token> {
    seq![Token::Len(g.irqs.len() as u64)] + (flat(lines_of::<Irq>(g.irqs)) + (register_tokens(g)
        + table_tokens(lines_of::<(u32, u8)>(g.active_prio))))
}

pub open spec fn register_tokens(g: GicState) -> Seq<Token> {
    seq![
        Token::U32(g.gicd_ctlr),
        Token::Bool(g.processor_sleep),
        Token::U8(g.pmr),
        Token::U8(g.bpr1),
        Token::Bool(g.igrpen1),
        Token::Bool(g.eoimode),
    ]
}

/// The controller after its interrupts were read.
pub open spec fn gic_rest_from(irqs: Seq<Irq>, s: Seq<Token>) -> Result<
    (GicState, Seq<Token>),
    Fault,
> {
    if !fits(s, gic_kinds()) {
        Err(Fault::Missing)
    } else {
        match list_from::<(u32, u8)>(s.skip(6)) {
            Err(e) => Err(e),
            Ok((active_prio, rest)) => {
                let g = GicState {
                    irqs,
                    gicd_ctlr: s[0]->U32_0,
                    processor_sleep: s[1]->Bool_0,
                    pmr: s[2]->U8_0,
                    bpr1: s[3]->U8_0,
                    igrpen1: s[4]->Bool_0,
                    eoimode: s[5]->Bool_0,
                    active_prio,
                };
                Ok((g, rest))
            },
        }
    }
}

/// The controller at the front, and what is left after it.
pub open spec fn gic_from(s: Seq<Token>) -> Result<(GicState, Seq<Token>), Fault> {
    if s.len() == 0 || !(s[0] is Len) {
        Err(Fault::Missing)
    } else if s[0]->Len_0 != NUM_INTIDS {
        Err(Fault::Differs(Subject::Intids))
    } else if !rows_fit(s.skip(1), Irq::line_kinds(), NUM_INTIDS as nat) {
        Err(Fault::Missing)
    } else {
        match listed::<Irq>(cut(s.skip(1), 3, NUM_INTIDS as nat), NUM_INTIDS as nat) {
            Err(e) => Err(e),
            Ok(irqs) => gic_rest_from(irqs, past(s.skip(1), 3, NUM_INTIDS as nat)),
        }
    }
}

impl Gic {
    pub fn save(&self) -> (r: Vec<Field>)
        ensures
            tokens(r@) == gic_tokens(self@),
    {
        let mut r: Vec<Field> = Vec::new();
        r.push(Field::Len(self.irqs.len() as u64));
        let ghost rows = lines_of::<Irq>(self@.irqs);
        let mut i: usize = 0;
        assert(tokens(r@) =~= seq![Token::Len(rows.len() as u64)] + flat(rows.take(0)));
        while i < self.irqs.len()
            invariant
                i <= self.irqs@.len() == rows.len(),
                rows == lines_of::<Irq>(self@.irqs),
                tokens(r@) == seq![Token::Len(rows.len() as u64)] + flat(rows.take(i as int)),
            decreases self.irqs@.len() - i,
        {
            append(&mut r, self.irqs[i].line_fields());
            proof {
                lemma_flat_take(rows, i as int);
                assert(rows[i as int] == Irq::line(self.irqs@[i as int]));
            }
            i += 1;
            assert(tokens(r@) =~= seq![Token::Len(rows.len() as u64)] + flat(rows.take(i as int)));
        }
        assert(rows.take(i as int) =~= rows);
        let mut g: Vec<Field> = Vec::new();
        g.push(Field::U32(self.gicd_ctlr));
        g.push(Field::Bool(self.processor_sleep));
        g.push(Field::U8(self.pmr));
        g.push(Field::U8(self.bpr1));
        g.push(Field::Bool(self.igrpen1));
        g.push(Field::Bool(self.eoimode));
        assert(tokens(g@) =~= register_tokens(self@));
        append(&mut r, g);
        append(&mut r, save_list(&self.active_prio));
        assert(items(self.active_prio@) =~= self.active_prio@);
        assert(tokens(r@) =~= gic_tokens(self@));
        r
    }

    pub fn restore<S: Source>(&mut self, src: &mut S) -> (r: Result<(), Fault>)
        ensures
            match r {
                Ok(_) => {
                    &&& gic_from(old(src).rest()) == Ok::<(GicState, Seq<Token>), Fault>(
                        (final(self)@, final(src).rest()),
                    )
                    &&& final(self)@.wf() == (final(self)@.bpr1 <= 7)
                },
                Err(e) => {
                    &&& gic_from(old(src).rest()) == Err::<(GicState, Seq<Token>), Fault>(e)
                    &&& *final(self) == *old(self)
                },
            },
    {
        let ghost s = src.rest();
        let n: u64 = match src.next(Kind::Len) {
            Ok(f) => f.len(),
            Err(e) => {
                return Err(e);
            },
        };
        if n != NUM_INTIDS as u64 {
            return Err(Fault::Differs(Subject::Intids));
        }
        let line: Vec<Kind> = Irq::line_kind_list();
        let rows: Vec<Vec<Field>> = match read_rows(src, line.as_slice(), n) {
            Ok(rows) => rows,
            Err(e) => {
                return Err(e);
            },
        };
        let irqs: Vec<Irq> = match read_items::<Irq>(&rows) {
            Ok(irqs) => irqs,
            Err(e) => {
                return Err(e);
            },
        };
        assert(items(irqs@) =~= irqs@);
        let ghost s2 = src.rest();
        let kinds: Vec<Kind> = gic_kinds_list();
        let row: Vec<Field> = match read_row(src, kinds.as_slice()) {
            Ok(row) => row,
            Err(e) => {
                return Err(e);
            },
        };
        assert(s2[0].is_kind(gic_kinds()[0]));
        assert(s2[1].is_kind(gic_kinds()[1]));
        assert(s2[2].is_kind(gic_kinds()[2]));
        assert(s2[3].is_kind(gic_kinds()[3]));
        assert(s2[4].is_kind(gic_kinds()[4]));
        assert(s2[5].is_kind(gic_kinds()[5]));
        let active_prio: Vec<(u32, u8)> = match restore_list(src) {
            Ok(t) => t,
            Err(e) => {
                return Err(e);
            },
        };
        assert(items(active_prio@) =~= active_prio@);
        let g = Gic {
            irqs,
            gicd_ctlr: row[0].u32(),
            processor_sleep: row[1].bool(),
            pmr: row[2].u8(),
            bpr1: row[3].u8(),
            igrpen1: row[4].bool(),
            eoimode: row[5].bool(),
            active_prio,
        };
        proof {
            lemma_listed_len::<Irq>(
                cut(s.skip(1), 3, NUM_INTIDS as nat),
                NUM_INTIDS as nat,
            );
        }
        *self = g;
        Ok(())
    }

    /// Whether BPR1 leaves bits of a priority, as it does in every controller that
    /// was not restored. A controller goes on after a restore only if it does.
    pub fn is_sound(&self) -> (r: bool)
        ensures
            r == (self@.bpr1 <= 7),
    {
        self.bpr1 <= 7
    }
}

/// A controller that was saved is restored as it was.
pub proof fn law_gic_comes_back(g: GicState, rest: Seq<Token>)
    requires
        g.irqs.len() == NUM_INTIDS,
        g.active_prio.len() <= u64::MAX,
    ensures
        gic_from(gic_tokens(g) + rest) == Ok::<(GicState, Seq<Token>), Fault>((g, rest)),
{
    let rows = lines_of::<Irq>(g.irqs);
    let regs = register_tokens(g);
    let prio = table_tokens(lines_of::<(u32, u8)>(g.active_prio));
    let head = seq![Token::Len(g.irqs.len() as u64)];
    let s = gic_tokens(g) + rest;
    lemma_join(head, flat(rows) + (regs + prio), rest);
    lemma_join(flat(rows), regs + prio, rest);
    lemma_join(regs, prio, rest);
    let tail = regs + (prio + rest);
    assert(s == head + (flat(rows) + tail));
    assert(s[0] == Token::Len(NUM_INTIDS as u64));
    assert(s.skip(1) =~= flat(rows) + tail);
    assert forall|i: int| 0 <= i < rows.len() implies (#[trigger] rows[i]).len() == 3 && fits(
        rows[i],
        Irq::line_kinds(),
    ) by {
        Irq::line_comes_back(g.irqs[i]);
    }
    lemma_rows_come_back(rows, Irq::line_kinds(), tail);
    lemma_listed_all::<Irq>(g.irqs, g.irqs.len());
    assert(g.irqs.take(g.irqs.len() as int) =~= g.irqs);
    assert(regs[0] == Token::U32(g.gicd_ctlr));
    assert(regs[1] == Token::Bool(g.processor_sleep));
    assert(regs[2] == Token::U8(g.pmr));
    assert(regs[3] == Token::U8(g.bpr1));
    assert(regs[4] == Token::Bool(g.igrpen1));
    assert(regs[5] == Token::Bool(g.eoimode));
    law_row_comes_back(regs, gic_kinds(), prio + rest);
    law_saved_list_comes_back::<(u32, u8)>(g.active_prio, rest);
}

} // verus!
