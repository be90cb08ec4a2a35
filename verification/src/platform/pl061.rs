//! PL061 GPIO: eight lines, line 3 wired to the power key
//! (`gpio-keys`, KEY_POWER) in the device tree.
//!
//! The host drives the input lines with [`Pl061::set_input`]; those it does not
//! drive are 0. A change of an input with IS = 0 (edge) accumulates in RIS the
//! edge chosen by IBE/IEV; with IS = 1 (level) RIS lights up again as long as
//! the level stays active; IC clears bits of RIS. The line towards the GIC is
//! `RIS & IE != 0`.
//!
//! DATA is addressed with the mask in bits 9:2 of the offset: only the bits of
//! the mask are read and written, and only output lines (DIR = 1) are written.
use vstd::prelude::*;
use crate::platform::bus::{sub_word, spec_sub_word, MmioDevice};

verus! {

pub const DATA: u64 = 0x000;
pub const DIR: u64 = 0x400;
pub const IS: u64 = 0x404;
pub const IBE: u64 = 0x408;
pub const IEV: u64 = 0x40C;
pub const IE: u64 = 0x410;
pub const RIS: u64 = 0x414;
pub const MIS: u64 = 0x418;
pub const IC: u64 = 0x41C;
pub const AFSEL: u64 = 0x420;
pub const PERIPH_ID0: u64 = 0xFE0;

/// Line of the power key (`gpio-keys`, KEY_POWER).
pub const POWER_KEY_LINE: u32 = 3;

/// PeriphID0-3 and CellID0-3.
pub open spec fn id_byte(i: int) -> u8 {
    seq![0x61u8, 0x10, 0x04, 0x00, 0x0D, 0xF0, 0x05, 0xB1][i]
}

fn read_id(i: u64) -> (r: u8)
    requires
        i < 8,
    ensures
        r == id_byte(i as int),
{
    match i {
        0 => 0x61,
        1 => 0x10,
        2 => 0x04,
        3 => 0x00,
        4 => 0x0D,
        5 => 0xF0,
        6 => 0x05,
        _ => 0xB1,
    }
}

#[derive(Clone, Debug, PartialEq, Eq, Structural)]
pub struct Pl061 {
    /// Values of the lines: outputs written by the guest, inputs by the host.
    pub data: u8,
    /// Inputs already seen by the interrupt logic.
    pub old_in: u8,
    pub dir: u8,
    pub is: u8,
    pub ibe: u8,
    pub iev: u8,
    pub ie: u8,
    pub ris: u8,
    pub afsel: u8,
}

impl Default for Pl061 {
    fn default() -> (r: Self)
        ensures
            r == Pl061::reset(),
            r.wf(),
    {
        Pl061::new()
    }
}

impl Pl061 {
    pub open spec fn reset() -> Pl061 {
        Pl061 { data: 0, old_in: 0, dir: 0, is: 0, ibe: 0, iev: 0, ie: 0, ris: 0, afsel: 0 }
    }

    pub fn new() -> (r: Self)
        ensures
            r == Self::reset(),
            r.wf(),
    {
        proof {
            lemma_seen(Self::reset());
        }
        Pl061 { data: 0, old_in: 0, dir: 0, is: 0, ibe: 0, iev: 0, ie: 0, ris: 0, afsel: 0 }
    }

    /// Input lines whose value the interrupt logic has not seen yet.
    pub open spec fn changed(self) -> u8 {
        (self.old_in ^ self.data) & !self.dir
    }

    /// The interrupt logic has seen every input line.
    pub open spec fn wf(self) -> bool {
        self.changed() == 0
    }

    /// The state after the interrupt logic has looked at the lines: an edge goes
    /// to RIS with IBE, or when the new level is IEV; an active level always does.
    pub open spec fn updated(self) -> Pl061 {
        let edges = if self.changed() != 0 {
            (self.changed() & !self.is) & (self.ibe | !(self.data ^ self.iev))
        } else {
            0
        };
        let levels = !(self.data ^ self.iev) & self.is;
        Pl061 {
            old_in: if self.changed() != 0 { self.data } else { self.old_in },
            ris: if self.changed() != 0 { (self.ris | edges) | levels } else { self.ris | levels },
            ..self
        }
    }

    fn update(&mut self)
        ensures
            *final(self) == old(self).updated(),
            final(self).wf(),
    {
        proof {
            lemma_seen(*self);
        }
        let changed: u8 = (self.old_in ^ self.data) & !self.dir;
        if changed != 0 {
            self.old_in = self.data;
            let edge: u8 = changed & !self.is;
            self.ris = self.ris | (edge & (self.ibe | !(self.data ^ self.iev)));
        }
        self.ris = self.ris | (!(self.data ^ self.iev) & self.is);
    }

    pub open spec fn input_set(self, line: u32, level: bool) -> Pl061 {
        let mask = 1u8 << (line & 7);
        if self.dir & mask == 0 {
            (Pl061 {
                data: (self.data & !mask) | if level { mask } else { 0 },
                ..self
            }).updated()
        } else {
            self
        }
    }

    /// Drives the input line `line` (0..8). Ignored for lines configured as
    /// outputs.
    pub fn set_input(&mut self, line: u32, level: bool)
        ensures
            *final(self) == old(self).input_set(line, level),
            old(self).wf() ==> final(self).wf(),
    {
        assert(line & 7 < 8) by (bit_vector);
        let mask: u8 = 1u8 << (line & 7);
        if self.dir & mask == 0 {
            self.data = (self.data & !mask) | if level { mask } else { 0 };
            self.update();
        }
    }

    /// Value of the output lines (DIR = 1); the others are 0.
    pub fn outputs(&self) -> (r: u8)
        ensures
            r == self.data & self.dir,
    {
        self.data & self.dir
    }

    /// Level of the IRQ line towards the GIC (GPIOINTR).
    pub fn irq_level(&self) -> (r: bool)
        ensures
            r == (self.ris & self.ie != 0),
    {
        self.ris & self.ie != 0
    }

    /// The mask that the offset of a DATA access carries in bits 9:2.
    pub open spec fn addr_mask(reg: u64) -> u8 {
        (reg / 4) as u8
    }

    /// The value of the register at the aligned offset `reg`.
    pub open spec fn reg_value(self, reg: u64) -> u8 {
        if reg <= 0x3FC {
            self.data & Self::addr_mask(reg)
        } else if reg == DIR {
            self.dir
        } else if reg == IS {
            self.is
        } else if reg == IBE {
            self.ibe
        } else if reg == IEV {
            self.iev
        } else if reg == IE {
            self.ie
        } else if reg == RIS {
            self.ris
        } else if reg == MIS {
            self.ris & self.ie
        } else if reg == AFSEL {
            self.afsel
        } else if PERIPH_ID0 <= reg <= 0xFFC {
            id_byte((reg - PERIPH_ID0) / 4)
        } else {
            0
        }
    }

    fn read_reg(&self, reg: u64) -> (r: u8)
        ensures
            r == self.reg_value(reg),
    {
        match reg {
            0x000..=0x3FC => self.data & (reg / 4) as u8,
            DIR => self.dir,
            IS => self.is,
            IBE => self.ibe,
            IEV => self.iev,
            IE => self.ie,
            RIS => self.ris,
            MIS => self.ris & self.ie,
            AFSEL => self.afsel,
            0xFE0..=0xFFC => read_id((reg - PERIPH_ID0) / 4),
            _ => 0,
        }
    }

    /// The state after `v` is written to the register at offset `reg`.
    pub open spec fn reg_written(self, reg: u64, v: u8) -> Pl061 {
        if reg <= 0x3FC {
            let mask = Self::addr_mask(reg) & self.dir;
            (Pl061 { data: (self.data & !mask) | (v & mask), ..self }).updated()
        } else if reg == DIR {
            (Pl061 { dir: v, ..self }).updated()
        } else if reg == IS {
            (Pl061 { is: v, ..self }).updated()
        } else if reg == IBE {
            (Pl061 { ibe: v, ..self }).updated()
        } else if reg == IEV {
            (Pl061 { iev: v, ..self }).updated()
        } else if reg == IE {
            (Pl061 { ie: v, ..self }).updated()
        } else if reg == IC {
            (Pl061 { ris: self.ris & !v, ..self }).updated()
        } else if reg == AFSEL {
            (Pl061 { afsel: v, ..self }).updated()
        } else {
            self
        }
    }

    fn write_reg(&mut self, reg: u64, v: u8)
        ensures
            *final(self) == old(self).reg_written(reg, v),
            old(self).wf() ==> final(self).wf(),
    {
        match reg {
            0x000..=0x3FC => {
                let mask: u8 = (reg / 4) as u8 & self.dir;
                self.data = (self.data & !mask) | (v & mask);
            },
            DIR => {
                self.dir = v;
            },
            IS => {
                self.is = v;
            },
            IBE => {
                self.ibe = v;
            },
            IEV => {
                self.iev = v;
            },
            IE => {
                self.ie = v;
            },
            IC => {
                self.ris = self.ris & !v;
            },
            AFSEL => {
                self.afsel = v;
            },
            _ => {
                return ;
            },
        }
        self.update();
    }

    /// What a read of `size` bytes at `offset` gives.
    pub open spec fn mmio_value(self, offset: u64, size: u8) -> u64 {
        if offset >= 0x1000 || size > 4 {
            0
        } else {
            spec_sub_word(self.reg_value((offset - offset % 4) as u64) as u32, offset, size)
        }
    }

    /// The state after a write of `size` bytes at `offset`.
    pub open spec fn mmio_written(self, offset: u64, size: u8, value: u64) -> Pl061 {
        if offset >= 0x1000 || size > 4 || offset % 4 != 0 {
            self
        } else {
            self.reg_written(offset, value as u8)
        }
    }
}

impl MmioDevice for Pl061 {
    open spec fn inv(&self) -> bool {
        self.wf()
    }

    open spec fn reads(pre: Self, offset: u64, size: u8, post: Self, value: u64) -> bool {
        post == pre && value == pre.mmio_value(offset, size)
    }

    open spec fn writes(pre: Self, offset: u64, size: u8, value: u64, post: Self) -> bool {
        post == pre.mmio_written(offset, size, value)
    }

    fn read(&mut self, offset: u64, size: u8) -> (value: u64) {
        if offset >= 0x1000 || size > 4 {
            return 0;
        }
        sub_word(self.read_reg(offset - offset % 4) as u32, offset, size)
    }

    fn write(&mut self, offset: u64, size: u8, value: u64) {
        if offset >= 0x1000 || size > 4 || offset % 4 != 0 {
            return ;
        }
        self.write_reg(offset, value as u8);
    }
}

proof fn lemma_seen(g: Pl061)
    ensures
        Pl061::reset().wf(),
        g.updated().wf(),
{
    assert(forall|d: u8, dir: u8| #[trigger] ((d ^ d) & !dir) == 0) by (bit_vector);
}

/// The interrupt logic has seen every input line from the start, and has seen it
/// after whatever the host drives and the guest writes.
pub proof fn law_every_line_is_seen(g: Pl061, line: u32, level: bool, offset: u64, size: u8, value: u64)
    requires
        g.wf(),
    ensures
        Pl061::reset().wf(),
        g.input_set(line, level).wf(),
        g.mmio_written(offset, size, value).wf(),
{
    let mask = 1u8 << (line & 7);
    lemma_seen(Pl061 { data: (g.data & !mask) | if level { mask } else { 0 }, ..g });
    let v = value as u8;
    let m = Pl061::addr_mask(offset) & g.dir;
    lemma_seen(Pl061 { data: (g.data & !m) | (v & m), ..g });
    lemma_seen(Pl061 { dir: v, ..g });
    lemma_seen(Pl061 { is: v, ..g });
    lemma_seen(Pl061 { ibe: v, ..g });
    lemma_seen(Pl061 { iev: v, ..g });
    lemma_seen(Pl061 { ie: v, ..g });
    lemma_seen(Pl061 { ris: g.ris & !v, ..g });
    lemma_seen(Pl061 { afsel: v, ..g });
}

/// Driving a line that is configured as an output changes nothing.
pub proof fn law_outputs_are_not_driven(g: Pl061, line: u32, level: bool)
    requires
        g.dir & (1u8 << (line & 7)) != 0,
    ensures
        g.input_set(line, level) == g,
{
}

/// A write to DATA never changes a line configured as an input.
pub proof fn law_data_keeps_inputs(g: Pl061, reg: u64, v: u8)
    requires
        reg <= 0x3FC,
    ensures
        g.reg_written(reg, v).data & !g.dir == g.data & !g.dir,
{
    let m = Pl061::addr_mask(reg);
    let d = g.data;
    let dir = g.dir;
    assert(((d & !(m & dir)) | (v & (m & dir))) & !dir == d & !dir) by (bit_vector);
}

/// Driving an edge-triggered line to the level it has already adds nothing to
/// RIS.
pub proof fn law_no_change_no_edge(g: Pl061)
    requires
        g.changed() == 0,
        g.is == 0,
    ensures
        g.updated() == g,
{
    let d = g.data;
    let e = g.iev;
    let r = g.ris;
    assert(r | (!(d ^ e) & 0u8) == r) by (bit_vector);
}

/// An active level lights RIS again at once after IC has cleared it.
pub proof fn law_active_level_survives_clear(g: Pl061, v: u8)
    ensures
        g.reg_written(IC, v).ris & (!(g.data ^ g.iev) & g.is) == !(g.data ^ g.iev) & g.is,
{
    let lv = !(g.data ^ g.iev) & g.is;
    assert(forall|a: u8| #[trigger] (a | lv) & lv == lv) by (bit_vector);
    assert((!(g.data ^ g.iev) & g.is) == lv);
}

} // verus!
